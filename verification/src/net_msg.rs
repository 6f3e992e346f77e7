//! Wire messages of the synchronization protocol and their byte codec.
//!
//! A datagram payload carries a batch: a message count followed by the
//! messages, each a tag byte and its fields in little-endian order.  The
//! encoder's output is pinned exactly by spec functions; the decoder accepts
//! only exact encodings, so whatever it returns re-encodes to its input.

use crate::humanoid::{Humanoid, HumanoidAi, HumanoidBase, HumanoidId, HumanoidInput,
    HumanoidPhysics};
use crate::tile::{spec_tile_code, spec_tile_from_code, Tile};
use vstd::prelude::*;

verus! {

/// A message from a client to the server.
#[derive(Clone, Debug, PartialEq)]
pub enum ClientNetMessage {
    Ping,
    Connect { version_major: u8, version_minor: u8 },
    Join,
    JoinComplete,
    SyncPlayer { player: Humanoid },
    RequestChunk { x: u16, y: u16, seq: u32 },
}

/// A message from the server to a client.
#[derive(Clone, Debug, PartialEq)]
pub enum ServerNetMessage {
    Ping,
    ConnectAccept,
    ConnectReject { version_major: u8, version_minor: u8 },
    JoinAccept { width: u16, height: u16, id: HumanoidId, spawn_x: u16, spawn_y: u16 },
    ChunkSync { x: u16, y: u16, seq: u32, fg_tiles: Vec<Tile>, bg_tiles: Vec<Tile> },
    HumanoidSync { humanoids: Vec<(HumanoidId, Humanoid)> },
    Start,
}

/// Little-endian bytes of a `u16`.
pub open spec fn spec_u16_bytes(v: u16) -> Seq<u8> {
    seq![(v & 0xff) as u8, ((v >> 8) & 0xff) as u8]
}

/// Little-endian bytes of a `u32`.
pub open spec fn spec_u32_bytes(v: u32) -> Seq<u8> {
    seq![
        (v & 0xff) as u8,
        ((v >> 8) & 0xff) as u8,
        ((v >> 16) & 0xff) as u8,
        ((v >> 24) & 0xff) as u8,
    ]
}

/// Little-endian bytes of a `u64`.
pub open spec fn spec_u64_bytes(v: u64) -> Seq<u8> {
    seq![
        (v & 0xff) as u8,
        ((v >> 8) & 0xff) as u8,
        ((v >> 16) & 0xff) as u8,
        ((v >> 24) & 0xff) as u8,
        ((v >> 32) & 0xff) as u8,
        ((v >> 40) & 0xff) as u8,
        ((v >> 48) & 0xff) as u8,
        ((v >> 56) & 0xff) as u8,
    ]
}

/// Magnitude of an `i64` as a `u64`.
pub open spec fn spec_i64_mag(v: i64) -> u64 {
    if v >= 0 {
        v as u64
    } else {
        ((-(v + 1)) as u64 + 1) as u64
    }
}

/// Sign-and-magnitude bytes of an `i64`: one sign byte, then the magnitude.
pub open spec fn spec_i64_bytes(v: i64) -> Seq<u8> {
    seq![if v >= 0 { 0u8 } else { 1u8 }] + spec_u64_bytes(spec_i64_mag(v))
}

/// Appends the bytes of a `u16`.
pub fn push_u16(out: &mut Vec<u8>, v: u16)
    ensures
        final(out)@ == old(out)@ + spec_u16_bytes(v),
{
    out.push((v & 0xff) as u8);
    out.push(((v >> 8) & 0xff) as u8);
    proof {
        assert(out@ =~= old(out)@ + spec_u16_bytes(v));
    }
}

/// Appends the bytes of a `u32`.
pub fn push_u32(out: &mut Vec<u8>, v: u32)
    ensures
        final(out)@ == old(out)@ + spec_u32_bytes(v),
{
    out.push((v & 0xff) as u8);
    out.push(((v >> 8) & 0xff) as u8);
    out.push(((v >> 16) & 0xff) as u8);
    out.push(((v >> 24) & 0xff) as u8);
    proof {
        assert(out@ =~= old(out)@ + spec_u32_bytes(v));
    }
}

/// Appends the bytes of a `u64`.
pub fn push_u64(out: &mut Vec<u8>, v: u64)
    ensures
        final(out)@ == old(out)@ + spec_u64_bytes(v),
{
    out.push((v & 0xff) as u8);
    out.push(((v >> 8) & 0xff) as u8);
    out.push(((v >> 16) & 0xff) as u8);
    out.push(((v >> 24) & 0xff) as u8);
    out.push(((v >> 32) & 0xff) as u8);
    out.push(((v >> 40) & 0xff) as u8);
    out.push(((v >> 48) & 0xff) as u8);
    out.push(((v >> 56) & 0xff) as u8);
    proof {
        assert(out@ =~= old(out)@ + spec_u64_bytes(v));
    }
}

/// Appends the bytes of an `i64`.
pub fn push_i64(out: &mut Vec<u8>, v: i64)
    ensures
        final(out)@ == old(out)@ + spec_i64_bytes(v),
{
    let ghost pre = out@;
    if v >= 0 {
        out.push(0);
        push_u64(out, v as u64);
    } else {
        out.push(1);
        let mag = ((-(v + 1)) as u64) + 1;
        push_u64(out, mag);
    }
    proof {
        assert(out@ =~= pre + spec_i64_bytes(v));
    }
}

/// Reads a `u8` at `pos`; `None` exactly when the buffer is too short.
pub fn parse_u8(bytes: &Vec<u8>, pos: usize) -> (r: Option<(u8, usize)>)
    ensures
        r is Some <==> pos + 1 <= bytes@.len(),
        r is Some ==> ({
            let (v, end) = r->Some_0;
            &&& end == pos + 1
            &&& bytes@.subrange(pos as int, end as int) =~= seq![v]
        }),
        forall|v: u8|
            pos + 1 <= bytes@.len() && bytes@.subrange(pos as int, pos + 1) == seq![v] ==> r
                == Some((v, (pos + 1) as usize)),
{
    if pos < bytes.len() {
        let b0 = bytes[pos];
        proof {
            assert forall|v: u8|
                pos + 1 <= bytes@.len() && bytes@.subrange(pos as int, pos + 1) == seq![v]
                    implies b0 == v by {
                assert(bytes@.subrange(pos as int, pos + 1)[0] == v);
            }
        }
        Some((b0, pos + 1))
    } else {
        None
    }
}

/// Reads a little-endian `u16` at `pos`.
pub fn parse_u16(bytes: &Vec<u8>, pos: usize) -> (r: Option<(u16, usize)>)
    ensures
        r is Some <==> pos + 2 <= bytes@.len(),
        r is Some ==> ({
            let (v, end) = r->Some_0;
            &&& end == pos + 2
            &&& bytes@.subrange(pos as int, end as int) =~= spec_u16_bytes(v)
        }),
        forall|v: u16|
            pos + 2 <= bytes@.len() && bytes@.subrange(pos as int, pos + 2) == spec_u16_bytes(v)
                ==> r == Some((v, (pos + 2) as usize)),
{
    let n = bytes.len();
    if n >= 2 && pos <= n - 2 {
        let b0 = bytes[pos];
        let b1 = bytes[pos + 1];
        let v = (b0 as u16) | ((b1 as u16) << 8);
        proof {
            assert((((b0 as u16) | ((b1 as u16) << 8)) & 0xff) as u8 == b0 && ((((b0 as u16) | ((
            b1 as u16) << 8)) >> 8) & 0xff) as u8 == b1) by (bit_vector);
            assert(bytes@.subrange(pos as int, pos + 2) =~= spec_u16_bytes(v));
            assert forall|v2: u16|
                pos + 2 <= bytes@.len() && bytes@.subrange(pos as int, pos + 2) == spec_u16_bytes(
                    v2,
                ) implies v == v2 by {
                lemma_u16_bytes_inj(v, v2);
            }
        }
        Some((v, pos + 2))
    } else {
        None
    }
}

/// Reads a little-endian `u32` at `pos`.
pub fn parse_u32(bytes: &Vec<u8>, pos: usize) -> (r: Option<(u32, usize)>)
    ensures
        r is Some <==> pos + 4 <= bytes@.len(),
        r is Some ==> ({
            let (v, end) = r->Some_0;
            &&& end == pos + 4
            &&& bytes@.subrange(pos as int, end as int) =~= spec_u32_bytes(v)
        }),
        forall|v: u32|
            pos + 4 <= bytes@.len() && bytes@.subrange(pos as int, pos + 4) == spec_u32_bytes(v)
                ==> r == Some((v, (pos + 4) as usize)),
{
    let n = bytes.len();
    if n >= 4 && pos <= n - 4 {
        let b0 = bytes[pos];
        let b1 = bytes[pos + 1];
        let b2 = bytes[pos + 2];
        let b3 = bytes[pos + 3];
        let v = (b0 as u32) | ((b1 as u32) << 8) | ((b2 as u32) << 16) | ((b3 as u32) << 24);
        proof {
            let vv = (b0 as u32) | ((b1 as u32) << 8) | ((b2 as u32) << 16) | ((b3 as u32) << 24);
            assert((vv & 0xff) as u8 == b0 && ((vv >> 8) & 0xff) as u8 == b1 && ((vv >> 16)
                & 0xff) as u8 == b2 && ((vv >> 24) & 0xff) as u8 == b3) by (bit_vector)
                requires
                    vv == (b0 as u32) | ((b1 as u32) << 8) | ((b2 as u32) << 16) | ((b3 as u32)
                        << 24),
            ;
            assert(bytes@.subrange(pos as int, pos + 4) =~= spec_u32_bytes(v));
            assert forall|v2: u32|
                pos + 4 <= bytes@.len() && bytes@.subrange(pos as int, pos + 4) == spec_u32_bytes(
                    v2,
                ) implies v == v2 by {
                lemma_u32_bytes_inj(v, v2);
            }
        }
        Some((v, pos + 4))
    } else {
        None
    }
}

/// Reads a little-endian `u64` at `pos`.
pub fn parse_u64(bytes: &Vec<u8>, pos: usize) -> (r: Option<(u64, usize)>)
    ensures
        r is Some <==> pos + 8 <= bytes@.len(),
        r is Some ==> ({
            let (v, end) = r->Some_0;
            &&& end == pos + 8
            &&& bytes@.subrange(pos as int, end as int) =~= spec_u64_bytes(v)
        }),
        forall|v: u64|
            pos + 8 <= bytes@.len() && bytes@.subrange(pos as int, pos + 8) == spec_u64_bytes(v)
                ==> r == Some((v, (pos + 8) as usize)),
{
    let n = bytes.len();
    if n >= 8 && pos <= n - 8 {
        let b0 = bytes[pos];
        let b1 = bytes[pos + 1];
        let b2 = bytes[pos + 2];
        let b3 = bytes[pos + 3];
        let b4 = bytes[pos + 4];
        let b5 = bytes[pos + 5];
        let b6 = bytes[pos + 6];
        let b7 = bytes[pos + 7];
        let v = (b0 as u64) | ((b1 as u64) << 8) | ((b2 as u64) << 16) | ((b3 as u64) << 24) | ((
        b4 as u64) << 32) | ((b5 as u64) << 40) | ((b6 as u64) << 48) | ((b7 as u64) << 56);
        proof {
            let vv = (b0 as u64) | ((b1 as u64) << 8) | ((b2 as u64) << 16) | ((b3 as u64) << 24)
                | ((b4 as u64) << 32) | ((b5 as u64) << 40) | ((b6 as u64) << 48) | ((b7 as u64)
                << 56);
            assert((vv & 0xff) as u8 == b0 && ((vv >> 8) & 0xff) as u8 == b1 && ((vv >> 16)
                & 0xff) as u8 == b2 && ((vv >> 24) & 0xff) as u8 == b3 && ((vv >> 32) & 0xff) as u8
                == b4 && ((vv >> 40) & 0xff) as u8 == b5 && ((vv >> 48) & 0xff) as u8 == b6 && ((vv
                >> 56) & 0xff) as u8 == b7) by (bit_vector)
                requires
                    vv == (b0 as u64) | ((b1 as u64) << 8) | ((b2 as u64) << 16) | ((b3 as u64)
                        << 24) | ((b4 as u64) << 32) | ((b5 as u64) << 40) | ((b6 as u64) << 48) | (
                    (b7 as u64) << 56),
            ;
            assert(bytes@.subrange(pos as int, pos + 8) =~= spec_u64_bytes(v));
            assert forall|v2: u64|
                pos + 8 <= bytes@.len() && bytes@.subrange(pos as int, pos + 8) == spec_u64_bytes(
                    v2,
                ) implies v == v2 by {
                lemma_u64_bytes_inj(v, v2);
            }
        }
        Some((v, pos + 8))
    } else {
        None
    }
}

/// Reads a sign-and-magnitude `i64` at `pos`; `None` on a short buffer, a bad
/// sign byte or an out-of-range magnitude.
pub fn parse_i64(bytes: &Vec<u8>, pos: usize) -> (r: Option<(i64, usize)>)
    ensures
        r is Some ==> ({
            let (v, end) = r->Some_0;
            &&& end == pos + 9 <= bytes@.len()
            &&& bytes@.subrange(pos as int, end as int) =~= spec_i64_bytes(v)
        }),
        forall|v: i64|
            pos + 9 <= bytes@.len() && bytes@.subrange(pos as int, pos + 9) == spec_i64_bytes(v)
                ==> r == Some((v, (pos + 9) as usize)),
{
    let s = match parse_u8(bytes, pos) {
        Option::Some(x) => x,
        Option::None => {
            return None;
        },
    };
    let m = match parse_u64(bytes, s.1) {
        Option::Some(x) => x,
        Option::None => {
            return None;
        },
    };
    proof {
        assert forall|v: i64|
            pos + 9 <= bytes@.len() && bytes@.subrange(pos as int, pos + 9) == spec_i64_bytes(v)
                implies s.0 == (if v >= 0 {
                0u8
            } else {
                1u8
            }) && m.0 == spec_i64_mag(v) && m.1 == pos + 9 && (v >= 0 ==> m.0
                <= 0x7fff_ffff_ffff_ffff && v == m.0 as i64) && (v < 0 ==> 1 <= m.0 && m.0
                <= 0x8000_0000_0000_0000 && v == -((m.0 - 1) as i64) - 1) by {
            assert(bytes@.subrange(pos as int, pos + 1) =~= seq![
                if v >= 0 {
                    0u8
                } else {
                    1u8
                },
            ]);
            assert forall|j: int| 0 <= j < 8 implies bytes@.subrange(pos + 1, pos + 9)[j]
                == spec_u64_bytes(spec_i64_mag(v))[j] by {
                assert(bytes@.subrange(pos as int, pos + 9)[j + 1] == spec_i64_bytes(v)[j + 1]);
            }
            assert(bytes@.subrange(pos + 1, pos + 9) =~= spec_u64_bytes(spec_i64_mag(v)));
            lemma_i64_mag_round_trip(v);
        }
    }
    if s.0 == 0 {
        if m.0 <= 0x7fff_ffff_ffff_ffff {
            let v = m.0 as i64;
            proof {
                assert(spec_i64_mag(v) == m.0);
                assert(bytes@.subrange(pos as int, m.1 as int) =~= spec_i64_bytes(v));
            }
            Some((v, m.1))
        } else {
            None
        }
    } else if s.0 == 1 {
        if 1 <= m.0 && m.0 <= 0x8000_0000_0000_0000 {
            let v = -((m.0 - 1) as i64) - 1;
            proof {
                assert(v < 0);
                assert(spec_i64_mag(v) == m.0);
                assert(bytes@.subrange(pos as int, m.1 as int) =~= spec_i64_bytes(v));
            }
            Some((v, m.1))
        } else {
            None
        }
    } else {
        None
    }
}

/// Every `i64` survives a trip through its wire bytes.
pub proof fn lemma_i64_mag_round_trip(v: i64)
    ensures
        v >= 0 ==> spec_i64_mag(v) <= 0x7fff_ffff_ffff_ffff && v == spec_i64_mag(v) as i64,
        v < 0 ==> 1 <= spec_i64_mag(v) <= 0x8000_0000_0000_0000 && v == -((spec_i64_mag(v)
            - 1) as i64) - 1,
{
}

/// A subrange splits at any inner point.
pub proof fn lemma_subrange_concat(b: Seq<u8>, p: int, q: int, r: int)
    requires
        0 <= p <= q <= r <= b.len(),
    ensures
        b.subrange(p, r) == b.subrange(p, q) + b.subrange(q, r),
{
    assert(b.subrange(p, r) =~= b.subrange(p, q) + b.subrange(q, r));
}

/// A one-byte subrange pins the byte under it.
pub proof fn lemma_byte_at(b: Seq<u8>, pos: int, v: u8)
    requires
        0 <= pos,
        pos + 1 <= b.len(),
        b.subrange(pos, pos + 1) == seq![v],
    ensures
        b[pos] == v,
{
    assert(b.subrange(pos, pos + 1)[0] == v);
}


/// Two equal little-endian byte pairs come from the same `u16`.
pub proof fn lemma_u16_bytes_inj(a: u16, b: u16)
    requires
        spec_u16_bytes(a) == spec_u16_bytes(b),
    ensures
        a == b,
{
    assert(spec_u16_bytes(a)[0] == spec_u16_bytes(b)[0]);
    assert(spec_u16_bytes(a)[1] == spec_u16_bytes(b)[1]);
    assert((((a & 0xff) as u8 == (b & 0xff) as u8) && (((a >> 8) & 0xff) as u8 == ((b >> 8)
        & 0xff) as u8)) ==> a == b) by (bit_vector);
}

/// Two equal little-endian byte quadruples come from the same `u32`.
pub proof fn lemma_u32_bytes_inj(a: u32, b: u32)
    requires
        spec_u32_bytes(a) == spec_u32_bytes(b),
    ensures
        a == b,
{
    assert(spec_u32_bytes(a)[0] == spec_u32_bytes(b)[0]);
    assert(spec_u32_bytes(a)[1] == spec_u32_bytes(b)[1]);
    assert(spec_u32_bytes(a)[2] == spec_u32_bytes(b)[2]);
    assert(spec_u32_bytes(a)[3] == spec_u32_bytes(b)[3]);
    assert((((a & 0xff) as u8 == (b & 0xff) as u8) && (((a >> 8) & 0xff) as u8 == ((b >> 8)
        & 0xff) as u8) && (((a >> 16) & 0xff) as u8 == ((b >> 16) & 0xff) as u8) && (((a >> 24)
        & 0xff) as u8 == ((b >> 24) & 0xff) as u8)) ==> a == b) by (bit_vector);
}

/// Two equal little-endian byte octets come from the same `u64`.
pub proof fn lemma_u64_bytes_inj(a: u64, b: u64)
    requires
        spec_u64_bytes(a) == spec_u64_bytes(b),
    ensures
        a == b,
{
    assert(spec_u64_bytes(a)[0] == spec_u64_bytes(b)[0]);
    assert(spec_u64_bytes(a)[1] == spec_u64_bytes(b)[1]);
    assert(spec_u64_bytes(a)[2] == spec_u64_bytes(b)[2]);
    assert(spec_u64_bytes(a)[3] == spec_u64_bytes(b)[3]);
    assert(spec_u64_bytes(a)[4] == spec_u64_bytes(b)[4]);
    assert(spec_u64_bytes(a)[5] == spec_u64_bytes(b)[5]);
    assert(spec_u64_bytes(a)[6] == spec_u64_bytes(b)[6]);
    assert(spec_u64_bytes(a)[7] == spec_u64_bytes(b)[7]);
    assert((((a & 0xff) as u8 == (b & 0xff) as u8) && (((a >> 8) & 0xff) as u8 == ((b >> 8)
        & 0xff) as u8) && (((a >> 16) & 0xff) as u8 == ((b >> 16) & 0xff) as u8) && (((a >> 24)
        & 0xff) as u8 == ((b >> 24) & 0xff) as u8) && (((a >> 32) & 0xff) as u8 == ((b >> 32)
        & 0xff) as u8) && (((a >> 40) & 0xff) as u8 == ((b >> 40) & 0xff) as u8) && (((a >> 48)
        & 0xff) as u8 == ((b >> 48) & 0xff) as u8) && (((a >> 56) & 0xff) as u8 == ((b >> 56)
        & 0xff) as u8)) ==> a == b) by (bit_vector);
}

/// Wire code of an AI variant.
pub open spec fn spec_ai_code(ai: HumanoidAi) -> u8 {
    match ai {
        HumanoidAi::Player => 0,
        HumanoidAi::Zombie => 1,
    }
}

/// Bytes of a humanoid's box, flags, AI variant and input queues.
pub open spec fn spec_humanoid_head_bytes(
    base: HumanoidBase,
    ai: HumanoidAi,
    input: HumanoidInput,
) -> Seq<u8> {
    spec_i64_bytes(base.x) + spec_i64_bytes(base.y) + spec_i64_bytes(base.w) + spec_i64_bytes(
        base.h,
    ) + seq![base.flags] + seq![spec_ai_code(ai)] + seq![input.jump_queue]
        + seq![input.left_queue] + seq![input.right_queue]
}

/// Bytes of a humanoid's kinematic state.
pub open spec fn spec_physics_bytes(p: HumanoidPhysics) -> Seq<u8> {
    spec_i64_bytes(p.last_x) + spec_i64_bytes(p.last_y) + spec_i64_bytes(p.max_dx)
        + spec_i64_bytes(p.dx) + spec_i64_bytes(p.dy) + spec_i64_bytes(p.ddx) + spec_i64_bytes(
        p.ddy,
    )
}

/// Bytes of one humanoid: box, flags, AI variant, input queues, kinematics.
pub open spec fn spec_humanoid_bytes(h: Humanoid) -> Seq<u8> {
    spec_humanoid_head_bytes(h.base, h.ai, h.input) + spec_physics_bytes(h.physics)
}

/// Appends the bytes of one humanoid.
#[verifier::rlimit(100)]
pub fn push_humanoid(out: &mut Vec<u8>, h: &Humanoid)
    ensures
        final(out)@ == old(out)@ + spec_humanoid_bytes(*h),
{
    let ghost pre = out@;
    push_i64(out, h.base.x);
    push_i64(out, h.base.y);
    push_i64(out, h.base.w);
    push_i64(out, h.base.h);
    out.push(h.base.flags);
    match h.ai {
        HumanoidAi::Player => out.push(0),
        HumanoidAi::Zombie => out.push(1),
    }
    out.push(h.input.jump_queue);
    out.push(h.input.left_queue);
    out.push(h.input.right_queue);
    push_i64(out, h.physics.last_x);
    push_i64(out, h.physics.last_y);
    push_i64(out, h.physics.max_dx);
    push_i64(out, h.physics.dx);
    push_i64(out, h.physics.dy);
    push_i64(out, h.physics.ddx);
    push_i64(out, h.physics.ddy);
    proof {
        assert(out@ =~= pre + spec_humanoid_bytes(*h));
    }
}

/// The head bytes of a humanoid split into its field encodings.
#[verifier::rlimit(100)]
pub proof fn lemma_humanoid_head_bytes_split(b: Seq<u8>, pos: int, base: HumanoidBase, ai: HumanoidAi, input: HumanoidInput)
    requires
        0 <= pos,
        pos + 41 <= b.len(),
        b.subrange(pos, pos + 41) == spec_humanoid_head_bytes(base, ai, input),
    ensures
        b.subrange(pos + 0, pos + 9) == spec_i64_bytes(base.x),
        b.subrange(pos + 9, pos + 18) == spec_i64_bytes(base.y),
        b.subrange(pos + 18, pos + 27) == spec_i64_bytes(base.w),
        b.subrange(pos + 27, pos + 36) == spec_i64_bytes(base.h),
        b.subrange(pos + 36, pos + 37) == seq![base.flags],
        b.subrange(pos + 37, pos + 38) == seq![spec_ai_code(ai)],
        b.subrange(pos + 38, pos + 39) == seq![input.jump_queue],
        b.subrange(pos + 39, pos + 40) == seq![input.left_queue],
        b.subrange(pos + 40, pos + 41) == seq![input.right_queue],
{
    assert((spec_humanoid_head_bytes(base, ai, input)).len() == 41);
    assert forall|j: int| 0 <= j < 9 implies b.subrange(pos + 0, pos + 9)[j] == (spec_i64_bytes(base.x))[j] by {
        assert(b.subrange(pos, pos + 41)[0 + j] == (spec_humanoid_head_bytes(base, ai, input))[0 + j]);
    }
    assert(b.subrange(pos + 0, pos + 9) =~= spec_i64_bytes(base.x));
    assert forall|j: int| 0 <= j < 9 implies b.subrange(pos + 9, pos + 18)[j] == (spec_i64_bytes(base.y))[j] by {
        assert(b.subrange(pos, pos + 41)[9 + j] == (spec_humanoid_head_bytes(base, ai, input))[9 + j]);
    }
    assert(b.subrange(pos + 9, pos + 18) =~= spec_i64_bytes(base.y));
    assert forall|j: int| 0 <= j < 9 implies b.subrange(pos + 18, pos + 27)[j] == (spec_i64_bytes(base.w))[j] by {
        assert(b.subrange(pos, pos + 41)[18 + j] == (spec_humanoid_head_bytes(base, ai, input))[18 + j]);
    }
    assert(b.subrange(pos + 18, pos + 27) =~= spec_i64_bytes(base.w));
    assert forall|j: int| 0 <= j < 9 implies b.subrange(pos + 27, pos + 36)[j] == (spec_i64_bytes(base.h))[j] by {
        assert(b.subrange(pos, pos + 41)[27 + j] == (spec_humanoid_head_bytes(base, ai, input))[27 + j]);
    }
    assert(b.subrange(pos + 27, pos + 36) =~= spec_i64_bytes(base.h));
    assert forall|j: int| 0 <= j < 1 implies b.subrange(pos + 36, pos + 37)[j] == (seq![base.flags])[j] by {
        assert(b.subrange(pos, pos + 41)[36 + j] == (spec_humanoid_head_bytes(base, ai, input))[36 + j]);
    }
    assert(b.subrange(pos + 36, pos + 37) =~= seq![base.flags]);
    assert forall|j: int| 0 <= j < 1 implies b.subrange(pos + 37, pos + 38)[j] == (seq![spec_ai_code(ai)])[j] by {
        assert(b.subrange(pos, pos + 41)[37 + j] == (spec_humanoid_head_bytes(base, ai, input))[37 + j]);
    }
    assert(b.subrange(pos + 37, pos + 38) =~= seq![spec_ai_code(ai)]);
    assert forall|j: int| 0 <= j < 1 implies b.subrange(pos + 38, pos + 39)[j] == (seq![input.jump_queue])[j] by {
        assert(b.subrange(pos, pos + 41)[38 + j] == (spec_humanoid_head_bytes(base, ai, input))[38 + j]);
    }
    assert(b.subrange(pos + 38, pos + 39) =~= seq![input.jump_queue]);
    assert forall|j: int| 0 <= j < 1 implies b.subrange(pos + 39, pos + 40)[j] == (seq![input.left_queue])[j] by {
        assert(b.subrange(pos, pos + 41)[39 + j] == (spec_humanoid_head_bytes(base, ai, input))[39 + j]);
    }
    assert(b.subrange(pos + 39, pos + 40) =~= seq![input.left_queue]);
    assert forall|j: int| 0 <= j < 1 implies b.subrange(pos + 40, pos + 41)[j] == (seq![input.right_queue])[j] by {
        assert(b.subrange(pos, pos + 41)[40 + j] == (spec_humanoid_head_bytes(base, ai, input))[40 + j]);
    }
    assert(b.subrange(pos + 40, pos + 41) =~= seq![input.right_queue]);
}

/// The kinematic bytes of a humanoid split into its field encodings.
#[verifier::rlimit(100)]
pub proof fn lemma_physics_bytes_split(b: Seq<u8>, pos: int, p: HumanoidPhysics)
    requires
        0 <= pos,
        pos + 63 <= b.len(),
        b.subrange(pos, pos + 63) == spec_physics_bytes(p),
    ensures
        b.subrange(pos + 0, pos + 9) == spec_i64_bytes(p.last_x),
        b.subrange(pos + 9, pos + 18) == spec_i64_bytes(p.last_y),
        b.subrange(pos + 18, pos + 27) == spec_i64_bytes(p.max_dx),
        b.subrange(pos + 27, pos + 36) == spec_i64_bytes(p.dx),
        b.subrange(pos + 36, pos + 45) == spec_i64_bytes(p.dy),
        b.subrange(pos + 45, pos + 54) == spec_i64_bytes(p.ddx),
        b.subrange(pos + 54, pos + 63) == spec_i64_bytes(p.ddy),
{
    assert((spec_physics_bytes(p)).len() == 63);
    assert forall|j: int| 0 <= j < 9 implies b.subrange(pos + 0, pos + 9)[j] == (spec_i64_bytes(p.last_x))[j] by {
        assert(b.subrange(pos, pos + 63)[0 + j] == (spec_physics_bytes(p))[0 + j]);
    }
    assert(b.subrange(pos + 0, pos + 9) =~= spec_i64_bytes(p.last_x));
    assert forall|j: int| 0 <= j < 9 implies b.subrange(pos + 9, pos + 18)[j] == (spec_i64_bytes(p.last_y))[j] by {
        assert(b.subrange(pos, pos + 63)[9 + j] == (spec_physics_bytes(p))[9 + j]);
    }
    assert(b.subrange(pos + 9, pos + 18) =~= spec_i64_bytes(p.last_y));
    assert forall|j: int| 0 <= j < 9 implies b.subrange(pos + 18, pos + 27)[j] == (spec_i64_bytes(p.max_dx))[j] by {
        assert(b.subrange(pos, pos + 63)[18 + j] == (spec_physics_bytes(p))[18 + j]);
    }
    assert(b.subrange(pos + 18, pos + 27) =~= spec_i64_bytes(p.max_dx));
    assert forall|j: int| 0 <= j < 9 implies b.subrange(pos + 27, pos + 36)[j] == (spec_i64_bytes(p.dx))[j] by {
        assert(b.subrange(pos, pos + 63)[27 + j] == (spec_physics_bytes(p))[27 + j]);
    }
    assert(b.subrange(pos + 27, pos + 36) =~= spec_i64_bytes(p.dx));
    assert forall|j: int| 0 <= j < 9 implies b.subrange(pos + 36, pos + 45)[j] == (spec_i64_bytes(p.dy))[j] by {
        assert(b.subrange(pos, pos + 63)[36 + j] == (spec_physics_bytes(p))[36 + j]);
    }
    assert(b.subrange(pos + 36, pos + 45) =~= spec_i64_bytes(p.dy));
    assert forall|j: int| 0 <= j < 9 implies b.subrange(pos + 45, pos + 54)[j] == (spec_i64_bytes(p.ddx))[j] by {
        assert(b.subrange(pos, pos + 63)[45 + j] == (spec_physics_bytes(p))[45 + j]);
    }
    assert(b.subrange(pos + 45, pos + 54) =~= spec_i64_bytes(p.ddx));
    assert forall|j: int| 0 <= j < 9 implies b.subrange(pos + 54, pos + 63)[j] == (spec_i64_bytes(p.ddy))[j] by {
        assert(b.subrange(pos, pos + 63)[54 + j] == (spec_physics_bytes(p))[54 + j]);
    }
    assert(b.subrange(pos + 54, pos + 63) =~= spec_i64_bytes(p.ddy));
}

/// The bytes of one humanoid split into head and kinematics.
pub proof fn lemma_humanoid_bytes_split(b: Seq<u8>, pos: int, h: Humanoid)
    requires
        0 <= pos,
        pos + 104 <= b.len(),
        b.subrange(pos, pos + 104) == spec_humanoid_bytes(h),
    ensures
        b.subrange(pos, pos + 41) == spec_humanoid_head_bytes(h.base, h.ai, h.input),
        b.subrange(pos + 41, pos + 104) == spec_physics_bytes(h.physics),
{
    assert(spec_humanoid_head_bytes(h.base, h.ai, h.input).len() == 41);
    assert(spec_physics_bytes(h.physics).len() == 63);
    assert forall|j: int| 0 <= j < 41 implies b.subrange(pos, pos + 41)[j]
        == spec_humanoid_head_bytes(h.base, h.ai, h.input)[j] by {
        assert(b.subrange(pos, pos + 104)[j] == spec_humanoid_bytes(h)[j]);
    }
    assert(b.subrange(pos, pos + 41) =~= spec_humanoid_head_bytes(h.base, h.ai, h.input));
    assert forall|j: int| 0 <= j < 63 implies b.subrange(pos + 41, pos + 104)[j]
        == spec_physics_bytes(h.physics)[j] by {
        assert(b.subrange(pos, pos + 104)[41 + j] == spec_humanoid_bytes(h)[41 + j]);
    }
    assert(b.subrange(pos + 41, pos + 104) =~= spec_physics_bytes(h.physics));
}

/// Reads a humanoid's box, flags, AI variant and input queues at `pos`.
#[verifier::rlimit(100)]
fn parse_humanoid_head(bytes: &Vec<u8>, pos: usize) -> (r: Option<(
    (HumanoidBase, HumanoidAi, HumanoidInput),
    usize,
)>)
    ensures
        r is Some ==> ({
            let ((base, ai, input), end) = r->Some_0;
            &&& end == pos + 41 <= bytes@.len()
            &&& bytes@.subrange(pos as int, end as int) == spec_humanoid_head_bytes(
                base,
                ai,
                input,
            )
        }),
        forall|base: HumanoidBase, ai: HumanoidAi, input: HumanoidInput|
            pos + 41 <= bytes@.len() && bytes@.subrange(pos as int, pos + 41)
                == spec_humanoid_head_bytes(base, ai, input) ==> r == Some(
                ((base, ai, input), (pos + 41) as usize),
            ),
{
    let x = match parse_i64(bytes, pos) {
        Option::Some(v) => v,
        Option::None => {
            proof {
                assert forall|base: HumanoidBase, ai: HumanoidAi, input: HumanoidInput|
                    pos + 41 <= bytes@.len() && bytes@.subrange(pos as int, pos + 41)
                        == spec_humanoid_head_bytes(base, ai, input) implies false by {
                    lemma_humanoid_head_bytes_split(bytes@, pos as int, base, ai, input);
                }
            }
            return None;
        },
    };
    proof {
        assert forall|base: HumanoidBase, ai: HumanoidAi, input: HumanoidInput|
            pos + 41 <= bytes@.len() && bytes@.subrange(pos as int, pos + 41)
                == spec_humanoid_head_bytes(base, ai, input) implies x == ((base.x, (pos
            + 9) as usize)) by {
            lemma_humanoid_head_bytes_split(bytes@, pos as int, base, ai, input);
        }
    }
    let y = match parse_i64(bytes, x.1) {
        Option::Some(v) => v,
        Option::None => {
            proof {
                assert forall|base: HumanoidBase, ai: HumanoidAi, input: HumanoidInput|
                    pos + 41 <= bytes@.len() && bytes@.subrange(pos as int, pos + 41)
                        == spec_humanoid_head_bytes(base, ai, input) implies false by {
                    lemma_humanoid_head_bytes_split(bytes@, pos as int, base, ai, input);
                }
            }
            return None;
        },
    };
    proof {
        assert forall|base: HumanoidBase, ai: HumanoidAi, input: HumanoidInput|
            pos + 41 <= bytes@.len() && bytes@.subrange(pos as int, pos + 41)
                == spec_humanoid_head_bytes(base, ai, input) implies y == ((base.y, (pos
            + 18) as usize)) by {
            lemma_humanoid_head_bytes_split(bytes@, pos as int, base, ai, input);
        }
    }
    let w = match parse_i64(bytes, y.1) {
        Option::Some(v) => v,
        Option::None => {
            proof {
                assert forall|base: HumanoidBase, ai: HumanoidAi, input: HumanoidInput|
                    pos + 41 <= bytes@.len() && bytes@.subrange(pos as int, pos + 41)
                        == spec_humanoid_head_bytes(base, ai, input) implies false by {
                    lemma_humanoid_head_bytes_split(bytes@, pos as int, base, ai, input);
                }
            }
            return None;
        },
    };
    proof {
        assert forall|base: HumanoidBase, ai: HumanoidAi, input: HumanoidInput|
            pos + 41 <= bytes@.len() && bytes@.subrange(pos as int, pos + 41)
                == spec_humanoid_head_bytes(base, ai, input) implies w == ((base.w, (pos
            + 27) as usize)) by {
            lemma_humanoid_head_bytes_split(bytes@, pos as int, base, ai, input);
        }
    }
    let hh = match parse_i64(bytes, w.1) {
        Option::Some(v) => v,
        Option::None => {
            proof {
                assert forall|base: HumanoidBase, ai: HumanoidAi, input: HumanoidInput|
                    pos + 41 <= bytes@.len() && bytes@.subrange(pos as int, pos + 41)
                        == spec_humanoid_head_bytes(base, ai, input) implies false by {
                    lemma_humanoid_head_bytes_split(bytes@, pos as int, base, ai, input);
                }
            }
            return None;
        },
    };
    proof {
        assert forall|base: HumanoidBase, ai: HumanoidAi, input: HumanoidInput|
            pos + 41 <= bytes@.len() && bytes@.subrange(pos as int, pos + 41)
                == spec_humanoid_head_bytes(base, ai, input) implies hh == ((base.h, (pos
            + 36) as usize)) by {
            lemma_humanoid_head_bytes_split(bytes@, pos as int, base, ai, input);
        }
    }
    let flags = match parse_u8(bytes, hh.1) {
        Option::Some(v) => v,
        Option::None => {
            proof {
                assert forall|base: HumanoidBase, ai: HumanoidAi, input: HumanoidInput|
                    pos + 41 <= bytes@.len() && bytes@.subrange(pos as int, pos + 41)
                        == spec_humanoid_head_bytes(base, ai, input) implies false by {
                    lemma_humanoid_head_bytes_split(bytes@, pos as int, base, ai, input);
                }
            }
            return None;
        },
    };
    let aic = match parse_u8(bytes, flags.1) {
        Option::Some(v) => v,
        Option::None => {
            proof {
                assert forall|base: HumanoidBase, ai: HumanoidAi, input: HumanoidInput|
                    pos + 41 <= bytes@.len() && bytes@.subrange(pos as int, pos + 41)
                        == spec_humanoid_head_bytes(base, ai, input) implies false by {
                    lemma_humanoid_head_bytes_split(bytes@, pos as int, base, ai, input);
                }
            }
            return None;
        },
    };
    let jq = match parse_u8(bytes, aic.1) {
        Option::Some(v) => v,
        Option::None => {
            proof {
                assert forall|base: HumanoidBase, ai: HumanoidAi, input: HumanoidInput|
                    pos + 41 <= bytes@.len() && bytes@.subrange(pos as int, pos + 41)
                        == spec_humanoid_head_bytes(base, ai, input) implies false by {
                    lemma_humanoid_head_bytes_split(bytes@, pos as int, base, ai, input);
                }
            }
            return None;
        },
    };
    let lq = match parse_u8(bytes, jq.1) {
        Option::Some(v) => v,
        Option::None => {
            proof {
                assert forall|base: HumanoidBase, ai: HumanoidAi, input: HumanoidInput|
                    pos + 41 <= bytes@.len() && bytes@.subrange(pos as int, pos + 41)
                        == spec_humanoid_head_bytes(base, ai, input) implies false by {
                    lemma_humanoid_head_bytes_split(bytes@, pos as int, base, ai, input);
                }
            }
            return None;
        },
    };
    let rq = match parse_u8(bytes, lq.1) {
        Option::Some(v) => v,
        Option::None => {
            proof {
                assert forall|base: HumanoidBase, ai: HumanoidAi, input: HumanoidInput|
                    pos + 41 <= bytes@.len() && bytes@.subrange(pos as int, pos + 41)
                        == spec_humanoid_head_bytes(base, ai, input) implies false by {
                    lemma_humanoid_head_bytes_split(bytes@, pos as int, base, ai, input);
                }
            }
            return None;
        },
    };
    proof {
        assert forall|base: HumanoidBase, ai: HumanoidAi, input: HumanoidInput|
            pos + 41 <= bytes@.len() && bytes@.subrange(pos as int, pos + 41)
                == spec_humanoid_head_bytes(base, ai, input) implies flags.0 == base.flags
            && aic.0 == spec_ai_code(ai) && jq.0 == input.jump_queue && lq.0
            == input.left_queue && rq.0 == input.right_queue && rq.1 == pos + 41 by {
            lemma_humanoid_head_bytes_split(bytes@, pos as int, base, ai, input);
        }
    }
    let parsed_ai = if aic.0 == 0 {
        HumanoidAi::Player
    } else if aic.0 == 1 {
        HumanoidAi::Zombie
    } else {
        return None;
    };
    let base = HumanoidBase { x: x.0, y: y.0, w: w.0, h: hh.0, flags: flags.0 };
    let input = HumanoidInput { jump_queue: jq.0, left_queue: lq.0, right_queue: rq.0 };
    proof {
        assert(bytes@.subrange(pos as int, rq.1 as int) =~= spec_humanoid_head_bytes(
            base,
            parsed_ai,
            input,
        ));
    }
    Some(((base, parsed_ai, input), rq.1))
}

/// Reads a humanoid's kinematic state at `pos`.
#[verifier::rlimit(100)]
fn parse_physics(bytes: &Vec<u8>, pos: usize) -> (r: Option<(HumanoidPhysics, usize)>)
    ensures
        r is Some ==> ({
            let (p, end) = r->Some_0;
            &&& end == pos + 63 <= bytes@.len()
            &&& bytes@.subrange(pos as int, end as int) == spec_physics_bytes(p)
        }),
        forall|p: HumanoidPhysics|
            pos + 63 <= bytes@.len() && bytes@.subrange(pos as int, pos + 63)
                == spec_physics_bytes(p) ==> r == Some((p, (pos + 63) as usize)),
{
    let lx = match parse_i64(bytes, pos) {
        Option::Some(v) => v,
        Option::None => {
            proof {
                assert forall|p: HumanoidPhysics|
                    pos + 63 <= bytes@.len() && bytes@.subrange(pos as int, pos + 63)
                        == spec_physics_bytes(p) implies false by {
                    lemma_physics_bytes_split(bytes@, pos as int, p);
                }
            }
            return None;
        },
    };
    proof {
        assert forall|p: HumanoidPhysics|
            pos + 63 <= bytes@.len() && bytes@.subrange(pos as int, pos + 63)
                == spec_physics_bytes(p) implies lx == ((p.last_x, (pos + 9) as usize)) by {
            lemma_physics_bytes_split(bytes@, pos as int, p);
        }
    }
    let ly = match parse_i64(bytes, lx.1) {
        Option::Some(v) => v,
        Option::None => {
            proof {
                assert forall|p: HumanoidPhysics|
                    pos + 63 <= bytes@.len() && bytes@.subrange(pos as int, pos + 63)
                        == spec_physics_bytes(p) implies false by {
                    lemma_physics_bytes_split(bytes@, pos as int, p);
                }
            }
            return None;
        },
    };
    proof {
        assert forall|p: HumanoidPhysics|
            pos + 63 <= bytes@.len() && bytes@.subrange(pos as int, pos + 63)
                == spec_physics_bytes(p) implies ly == ((p.last_y, (pos + 18) as usize)) by {
            lemma_physics_bytes_split(bytes@, pos as int, p);
        }
    }
    let mdx = match parse_i64(bytes, ly.1) {
        Option::Some(v) => v,
        Option::None => {
            proof {
                assert forall|p: HumanoidPhysics|
                    pos + 63 <= bytes@.len() && bytes@.subrange(pos as int, pos + 63)
                        == spec_physics_bytes(p) implies false by {
                    lemma_physics_bytes_split(bytes@, pos as int, p);
                }
            }
            return None;
        },
    };
    proof {
        assert forall|p: HumanoidPhysics|
            pos + 63 <= bytes@.len() && bytes@.subrange(pos as int, pos + 63)
                == spec_physics_bytes(p) implies mdx == ((p.max_dx, (pos + 27) as usize)) by {
            lemma_physics_bytes_split(bytes@, pos as int, p);
        }
    }
    let dx = match parse_i64(bytes, mdx.1) {
        Option::Some(v) => v,
        Option::None => {
            proof {
                assert forall|p: HumanoidPhysics|
                    pos + 63 <= bytes@.len() && bytes@.subrange(pos as int, pos + 63)
                        == spec_physics_bytes(p) implies false by {
                    lemma_physics_bytes_split(bytes@, pos as int, p);
                }
            }
            return None;
        },
    };
    proof {
        assert forall|p: HumanoidPhysics|
            pos + 63 <= bytes@.len() && bytes@.subrange(pos as int, pos + 63)
                == spec_physics_bytes(p) implies dx == ((p.dx, (pos + 36) as usize)) by {
            lemma_physics_bytes_split(bytes@, pos as int, p);
        }
    }
    let dy = match parse_i64(bytes, dx.1) {
        Option::Some(v) => v,
        Option::None => {
            proof {
                assert forall|p: HumanoidPhysics|
                    pos + 63 <= bytes@.len() && bytes@.subrange(pos as int, pos + 63)
                        == spec_physics_bytes(p) implies false by {
                    lemma_physics_bytes_split(bytes@, pos as int, p);
                }
            }
            return None;
        },
    };
    proof {
        assert forall|p: HumanoidPhysics|
            pos + 63 <= bytes@.len() && bytes@.subrange(pos as int, pos + 63)
                == spec_physics_bytes(p) implies dy == ((p.dy, (pos + 45) as usize)) by {
            lemma_physics_bytes_split(bytes@, pos as int, p);
        }
    }
    let ddx = match parse_i64(bytes, dy.1) {
        Option::Some(v) => v,
        Option::None => {
            proof {
                assert forall|p: HumanoidPhysics|
                    pos + 63 <= bytes@.len() && bytes@.subrange(pos as int, pos + 63)
                        == spec_physics_bytes(p) implies false by {
                    lemma_physics_bytes_split(bytes@, pos as int, p);
                }
            }
            return None;
        },
    };
    proof {
        assert forall|p: HumanoidPhysics|
            pos + 63 <= bytes@.len() && bytes@.subrange(pos as int, pos + 63)
                == spec_physics_bytes(p) implies ddx == ((p.ddx, (pos + 54) as usize)) by {
            lemma_physics_bytes_split(bytes@, pos as int, p);
        }
    }
    let ddy = match parse_i64(bytes, ddx.1) {
        Option::Some(v) => v,
        Option::None => {
            proof {
                assert forall|p: HumanoidPhysics|
                    pos + 63 <= bytes@.len() && bytes@.subrange(pos as int, pos + 63)
                        == spec_physics_bytes(p) implies false by {
                    lemma_physics_bytes_split(bytes@, pos as int, p);
                }
            }
            return None;
        },
    };
    proof {
        assert forall|p: HumanoidPhysics|
            pos + 63 <= bytes@.len() && bytes@.subrange(pos as int, pos + 63)
                == spec_physics_bytes(p) implies ddy == ((p.ddy, (pos + 63) as usize)) by {
            lemma_physics_bytes_split(bytes@, pos as int, p);
        }
    }
    let p = HumanoidPhysics {
        last_x: lx.0,
        last_y: ly.0,
        max_dx: mdx.0,
        dx: dx.0,
        dy: dy.0,
        ddx: ddx.0,
        ddy: ddy.0,
    };
    proof {
        assert(bytes@.subrange(pos as int, ddy.1 as int) =~= spec_physics_bytes(p));
    }
    Some((p, ddy.1))
}

/// Reads one humanoid at `pos`.
pub fn parse_humanoid(bytes: &Vec<u8>, pos: usize) -> (r: Option<(Humanoid, usize)>)
    ensures
        r is Some ==> ({
            let (h, end) = r->Some_0;
            &&& pos <= end <= bytes@.len()
            &&& bytes@.subrange(pos as int, end as int) == spec_humanoid_bytes(h)
        }),
        forall|h2: Humanoid|
            pos + 104 <= bytes@.len() && bytes@.subrange(pos as int, pos + 104)
                == spec_humanoid_bytes(h2) ==> r == Some((h2, (pos + 104) as usize)),
{
    let head = match parse_humanoid_head(bytes, pos) {
        Option::Some(v) => v,
        Option::None => {
            proof {
                assert forall|h2: Humanoid|
                    pos + 104 <= bytes@.len() && bytes@.subrange(pos as int, pos + 104)
                        == spec_humanoid_bytes(h2) implies false by {
                    lemma_humanoid_bytes_split(bytes@, pos as int, h2);
                }
            }
            return None;
        },
    };
    proof {
        assert forall|h2: Humanoid|
            pos + 104 <= bytes@.len() && bytes@.subrange(pos as int, pos + 104)
                == spec_humanoid_bytes(h2) implies head == ((h2.base, h2.ai, h2.input), (pos
            + 41) as usize) by {
            lemma_humanoid_bytes_split(bytes@, pos as int, h2);
        }
    }
    let phys = match parse_physics(bytes, head.1) {
        Option::Some(v) => v,
        Option::None => {
            proof {
                assert forall|h2: Humanoid|
                    pos + 104 <= bytes@.len() && bytes@.subrange(pos as int, pos + 104)
                        == spec_humanoid_bytes(h2) implies false by {
                    lemma_humanoid_bytes_split(bytes@, pos as int, h2);
                }
            }
            return None;
        },
    };
    proof {
        assert forall|h2: Humanoid|
            pos + 104 <= bytes@.len() && bytes@.subrange(pos as int, pos + 104)
                == spec_humanoid_bytes(h2) implies phys == ((h2.physics, (pos + 104) as usize))
            by {
            lemma_humanoid_bytes_split(bytes@, pos as int, h2);
        }
    }
    let ((base, ai, input), _head_end) = head;
    let h = Humanoid { base, ai, input, physics: phys.0 };
    proof {
        assert(bytes@.subrange(pos as int, phys.1 as int) =~= spec_humanoid_bytes(h));
    }
    Some((h, phys.1))
}

/// Tile codes of a tile sequence.
pub open spec fn spec_tiles_bytes(ts: Seq<Tile>) -> Seq<u8> {
    Seq::new(ts.len(), |i: int| spec_tile_code(ts[i]))
}

/// Appends the codes of exactly 64 tiles.
pub fn push_tiles64(out: &mut Vec<u8>, ts: &Vec<Tile>)
    requires
        ts@.len() == 64,
    ensures
        final(out)@ == old(out)@ + spec_tiles_bytes(ts@),
{
    let ghost pre = out@;
    let mut i: usize = 0;
    while i < 64
        invariant
            i <= 64,
            ts@.len() == 64,
            out@ == pre + spec_tiles_bytes(ts@).take(i as int),
        decreases 64 - i,
    {
        let c = ts[i].code();
        out.push(c);
        proof {
            assert(out@ =~= pre + spec_tiles_bytes(ts@).take(i as int + 1));
        }
        i = i + 1;
    }
    proof {
        assert(spec_tiles_bytes(ts@).take(64) =~= spec_tiles_bytes(ts@));
    }
}

/// Reads exactly 64 tile codes at `pos`.
#[verifier::loop_isolation(false)]
pub fn parse_tiles64(bytes: &Vec<u8>, pos: usize) -> (r: Option<(Vec<Tile>, usize)>)
    ensures
        r is Some ==> ({
            let (ts, end) = r->Some_0;
            &&& pos <= end <= bytes@.len()
            &&& ts@.len() == 64
            &&& bytes@.subrange(pos as int, end as int) == spec_tiles_bytes(ts@)
        }),
        forall|ts2: Seq<Tile>|
            pos + 64 <= bytes@.len() && ts2.len() == 64 && bytes@.subrange(pos as int, pos + 64)
                == spec_tiles_bytes(ts2) ==> r is Some && r->Some_0.0@ == ts2 && r->Some_0.1 == pos
                + 64,
{
    let n = bytes.len();
    if !(n >= 64 && pos <= n - 64) {
        return None;
    }
    let mut ts: Vec<Tile> = Vec::new();
    let mut i: usize = 0;
    while i < 64
        invariant
            i <= 64,
            pos + 64 <= bytes@.len(),
            ts@.len() == i,
            bytes@.subrange(pos as int, pos as int + i as int) == spec_tiles_bytes(ts@),
            forall|ts2: Seq<Tile>|
                ts2.len() == 64 && bytes@.subrange(pos as int, pos + 64) == spec_tiles_bytes(ts2)
                    ==> ts@ == ts2.take(i as int),
        decreases 64 - i,
    {
        let c = bytes[pos + i];
        proof {
            assert forall|ts2: Seq<Tile>|
                ts2.len() == 64 && bytes@.subrange(pos as int, pos + 64) == spec_tiles_bytes(ts2)
                    implies c == spec_tile_code(ts2[i as int]) && spec_tile_from_code(c) == Some(
                ts2[i as int],
            ) by {
                assert(bytes@.subrange(pos as int, pos + 64)[i as int] == spec_tiles_bytes(
                    ts2,
                )[i as int]);
                crate::tile::lemma_tile_code_round_trip(ts2[i as int]);
            }
        }
        let t = match Tile::from_code(c) {
            Option::Some(t) => t,
            Option::None => { return None },
        };
        ts.push(t);
        proof {
            crate::tile::lemma_tile_code_round_trip(t);
            assert(spec_tile_code(t) == c);
            assert(bytes@.subrange(pos as int, pos as int + i as int + 1) =~= spec_tiles_bytes(
                ts@,
            ));
            assert forall|ts2: Seq<Tile>|
                ts2.len() == 64 && bytes@.subrange(pos as int, pos + 64) == spec_tiles_bytes(ts2)
                    implies ts@ == ts2.take(i as int + 1) by {
                assert(ts@.drop_last() == ts2.take(i as int));
                assert(ts@ =~= ts2.take(i as int + 1));
            }
        }
        i = i + 1;
    }
    proof {
        assert forall|ts2: Seq<Tile>|
            ts2.len() == 64 && bytes@.subrange(pos as int, pos + 64) == spec_tiles_bytes(ts2)
                implies ts@ == ts2 by {
            assert(ts2.take(64) =~= ts2);
        }
    }
    Some((ts, pos + 64))
}

/// Bytes of one client message: a tag byte, then the fields.
pub open spec fn spec_client_msg_bytes(m: ClientNetMessage) -> Seq<u8> {
    match m {
        ClientNetMessage::Ping => seq![0u8],
        ClientNetMessage::Connect { version_major, version_minor } => seq![
            1u8,
            version_major,
            version_minor,
        ],
        ClientNetMessage::Join => seq![2u8],
        ClientNetMessage::JoinComplete => seq![3u8],
        ClientNetMessage::SyncPlayer { player } => seq![4u8] + spec_humanoid_bytes(player),
        ClientNetMessage::RequestChunk { x, y, seq } => seq![5u8] + spec_u16_bytes(x)
            + spec_u16_bytes(y) + spec_u32_bytes(seq),
    }
}

/// Bytes of one server message: a tag byte, then the fields.
pub open spec fn spec_server_msg_bytes(m: ServerNetMessage) -> Seq<u8> {
    match m {
        ServerNetMessage::Ping => seq![0u8],
        ServerNetMessage::ConnectAccept => seq![1u8],
        ServerNetMessage::ConnectReject { version_major, version_minor } => seq![
            2u8,
            version_major,
            version_minor,
        ],
        ServerNetMessage::JoinAccept { width, height, id, spawn_x, spawn_y } => seq![3u8]
            + spec_u16_bytes(width) + spec_u16_bytes(height) + spec_u32_bytes(id.0)
            + spec_u16_bytes(spawn_x) + spec_u16_bytes(spawn_y),
        ServerNetMessage::ChunkSync { x, y, seq, fg_tiles, bg_tiles } => seq![4u8]
            + spec_u16_bytes(x) + spec_u16_bytes(y) + spec_u32_bytes(seq) + spec_tiles_bytes(
            fg_tiles@,
        ) + spec_tiles_bytes(bg_tiles@),
        ServerNetMessage::HumanoidSync { humanoids } => seq![5u8] + spec_u32_bytes(
            humanoids@.len() as u32,
        ) + spec_humanoid_list_bytes(humanoids@),
        ServerNetMessage::Start => seq![6u8],
    }
}

/// Bytes of a humanoid list: each id, then its humanoid.
pub open spec fn spec_humanoid_list_bytes(hs: Seq<(HumanoidId, Humanoid)>) -> Seq<u8>
    decreases hs.len(),
{
    if hs.len() == 0 {
        Seq::empty()
    } else {
        spec_u32_bytes(hs[0].0.0) + spec_humanoid_bytes(hs[0].1) + spec_humanoid_list_bytes(
            hs.drop_first(),
        )
    }
}

/// Bytes of a client message batch, without the leading count.
pub open spec fn spec_client_msgs_bytes(ms: Seq<ClientNetMessage>) -> Seq<u8>
    decreases ms.len(),
{
    if ms.len() == 0 {
        Seq::empty()
    } else {
        spec_client_msg_bytes(ms[0]) + spec_client_msgs_bytes(ms.drop_first())
    }
}

/// Bytes of a server message batch, without the leading count.
pub open spec fn spec_server_msgs_bytes(ms: Seq<ServerNetMessage>) -> Seq<u8>
    decreases ms.len(),
{
    if ms.len() == 0 {
        Seq::empty()
    } else {
        spec_server_msg_bytes(ms[0]) + spec_server_msgs_bytes(ms.drop_first())
    }
}

/// Bytes of a whole client batch: the count, then the messages.
pub open spec fn spec_client_batch_bytes(ms: Seq<ClientNetMessage>) -> Seq<u8> {
    spec_u32_bytes(ms.len() as u32) + spec_client_msgs_bytes(ms)
}

/// Bytes of a whole server batch: the count, then the messages.
pub open spec fn spec_server_batch_bytes(ms: Seq<ServerNetMessage>) -> Seq<u8> {
    spec_u32_bytes(ms.len() as u32) + spec_server_msgs_bytes(ms)
}

/// Appending one message appends its bytes.
pub proof fn lemma_client_msgs_bytes_push(ms: Seq<ClientNetMessage>, m: ClientNetMessage)
    ensures
        spec_client_msgs_bytes(ms.push(m)) == spec_client_msgs_bytes(ms) + spec_client_msg_bytes(
            m,
        ),
    decreases ms.len(),
{
    if ms.len() == 0 {
        let e = Seq::<ClientNetMessage>::empty();
        assert(ms.push(m).drop_first() =~= e);
        assert(spec_client_msgs_bytes(e) == Seq::<u8>::empty());
        assert(ms =~= e);
        assert(ms.push(m)[0] == m);
        assert(spec_client_msgs_bytes(ms.push(m)) == spec_client_msg_bytes(m)
            + Seq::<u8>::empty());
        assert(spec_client_msg_bytes(m) + Seq::<u8>::empty() =~= Seq::<u8>::empty()
            + spec_client_msg_bytes(m));
    } else {
        assert(ms.push(m).drop_first() =~= ms.drop_first().push(m));
        lemma_client_msgs_bytes_push(ms.drop_first(), m);
        assert(ms.push(m)[0] == ms[0]);
        assert(spec_client_msgs_bytes(ms.push(m)) =~= spec_client_msgs_bytes(ms)
            + spec_client_msg_bytes(m));
    }
}

/// Appending one message appends its bytes.
pub proof fn lemma_server_msgs_bytes_push(ms: Seq<ServerNetMessage>, m: ServerNetMessage)
    ensures
        spec_server_msgs_bytes(ms.push(m)) == spec_server_msgs_bytes(ms) + spec_server_msg_bytes(
            m,
        ),
    decreases ms.len(),
{
    if ms.len() == 0 {
        let e = Seq::<ServerNetMessage>::empty();
        assert(ms.push(m).drop_first() =~= e);
        assert(spec_server_msgs_bytes(e) == Seq::<u8>::empty());
        assert(ms =~= e);
        assert(ms.push(m)[0] == m);
        assert(spec_server_msgs_bytes(ms.push(m)) == spec_server_msg_bytes(m)
            + Seq::<u8>::empty());
        assert(spec_server_msg_bytes(m) + Seq::<u8>::empty() =~= Seq::<u8>::empty()
            + spec_server_msg_bytes(m));
    } else {
        assert(ms.push(m).drop_first() =~= ms.drop_first().push(m));
        lemma_server_msgs_bytes_push(ms.drop_first(), m);
        assert(ms.push(m)[0] == ms[0]);
        assert(spec_server_msgs_bytes(ms.push(m)) =~= spec_server_msgs_bytes(ms)
            + spec_server_msg_bytes(m));
    }
}

/// Appending one pair appends its bytes.
#[verifier::rlimit(100)]
pub proof fn lemma_humanoid_list_bytes_push(hs: Seq<(HumanoidId, Humanoid)>, p: (HumanoidId, Humanoid))
    ensures
        spec_humanoid_list_bytes(hs.push(p)) == spec_humanoid_list_bytes(hs) + spec_u32_bytes(
            p.0.0,
        ) + spec_humanoid_bytes(p.1),
    decreases hs.len(),
{
    if hs.len() == 0 {
        let e = Seq::<(HumanoidId, Humanoid)>::empty();
        assert(hs.push(p).drop_first() =~= e);
        assert(spec_humanoid_list_bytes(e) == Seq::<u8>::empty());
        assert(hs =~= e);
        assert(hs.push(p)[0] == p);
        assert(spec_humanoid_list_bytes(hs.push(p)) == spec_u32_bytes(p.0.0)
            + spec_humanoid_bytes(p.1) + Seq::<u8>::empty());
        assert(spec_u32_bytes(p.0.0) + spec_humanoid_bytes(p.1) + Seq::<u8>::empty()
            =~= Seq::<u8>::empty() + spec_u32_bytes(p.0.0) + spec_humanoid_bytes(p.1));
    } else {
        assert(hs.push(p).drop_first() =~= hs.drop_first().push(p));
        lemma_humanoid_list_bytes_push(hs.drop_first(), p);
        assert(hs.push(p)[0] == hs[0]);
        assert(spec_humanoid_list_bytes(hs.push(p)) =~= spec_humanoid_list_bytes(hs)
            + spec_u32_bytes(p.0.0) + spec_humanoid_bytes(p.1));
    }
}

/// A `ChunkSync` message carries whole chunks.
pub open spec fn spec_server_msg_wf(m: ServerNetMessage) -> bool {
    match m {
        ServerNetMessage::ChunkSync { fg_tiles, bg_tiles, .. } => fg_tiles@.len() == 64
            && bg_tiles@.len() == 64,
        ServerNetMessage::HumanoidSync { humanoids } => humanoids@.len() < 0x1_0000_0000,
        _ => true,
    }
}

/// Appends one client message.
pub fn push_client_msg(out: &mut Vec<u8>, m: &ClientNetMessage)
    ensures
        final(out)@ == old(out)@ + spec_client_msg_bytes(*m),
{
    let ghost pre = out@;
    match m {
        ClientNetMessage::Ping => out.push(0),
        ClientNetMessage::Connect { version_major, version_minor } => {
            out.push(1);
            out.push(*version_major);
            out.push(*version_minor);
        },
        ClientNetMessage::Join => out.push(2),
        ClientNetMessage::JoinComplete => out.push(3),
        ClientNetMessage::SyncPlayer { player } => {
            out.push(4);
            push_humanoid(out, player);
        },
        ClientNetMessage::RequestChunk { x, y, seq } => {
            out.push(5);
            push_u16(out, *x);
            push_u16(out, *y);
            push_u32(out, *seq);
        },
    }
    proof {
        assert(out@ =~= pre + spec_client_msg_bytes(*m));
    }
}

/// Appends one server message.
#[verifier::rlimit(100)]
pub fn push_server_msg(out: &mut Vec<u8>, m: &ServerNetMessage)
    requires
        spec_server_msg_wf(*m),
    ensures
        final(out)@ == old(out)@ + spec_server_msg_bytes(*m),
{
    let ghost pre = out@;
    match m {
        ServerNetMessage::Ping => out.push(0),
        ServerNetMessage::ConnectAccept => out.push(1),
        ServerNetMessage::ConnectReject { version_major, version_minor } => {
            out.push(2);
            out.push(*version_major);
            out.push(*version_minor);
        },
        ServerNetMessage::JoinAccept { width, height, id, spawn_x, spawn_y } => {
            out.push(3);
            push_u16(out, *width);
            push_u16(out, *height);
            push_u32(out, id.0);
            push_u16(out, *spawn_x);
            push_u16(out, *spawn_y);
        },
        ServerNetMessage::ChunkSync { x, y, seq, fg_tiles, bg_tiles } => {
            out.push(4);
            push_u16(out, *x);
            push_u16(out, *y);
            push_u32(out, *seq);
            push_tiles64(out, fg_tiles);
            push_tiles64(out, bg_tiles);
        },
        ServerNetMessage::HumanoidSync { humanoids } => {
            out.push(5);
            push_u32(out, humanoids.len() as u32);
            let ghost hpre = out@;
            let n = humanoids.len();
            let mut i: usize = 0;
            while i < n
                invariant
                    i <= n,
                    n == humanoids@.len(),
                    out@ == hpre + spec_humanoid_list_bytes(humanoids@.take(i as int)),
                decreases n - i,
            {
                let id = humanoids[i].0;
                push_u32(out, id.0);
                let h = humanoids[i].1;
                push_humanoid(out, &h);
                proof {
                    lemma_humanoid_list_bytes_push(humanoids@.take(i as int), humanoids@[i as int]);
                    assert(humanoids@.take(i as int).push(humanoids@[i as int]) =~= humanoids@.take(
                        i as int + 1,
                    ));
                    assert(out@ =~= hpre + spec_humanoid_list_bytes(humanoids@.take(i as int + 1)));
                }
                i = i + 1;
            }
            proof {
                assert(humanoids@.take(n as int) =~= humanoids@);
            }
        },
        ServerNetMessage::Start => out.push(6),
    }
    proof {
        assert(out@ =~= pre + spec_server_msg_bytes(*m));
    }
}

/// Encodes a batch of client messages into one datagram payload.
pub fn serialize_client(msgs: &Vec<ClientNetMessage>) -> (r: Vec<u8>)
    requires
        msgs@.len() < 0x1_0000_0000,
    ensures
        r@ == spec_client_batch_bytes(msgs@),
{
    let mut out: Vec<u8> = Vec::new();
    push_u32(&mut out, msgs.len() as u32);
    let n = msgs.len();
    let mut i: usize = 0;
    while i < n
        invariant
            i <= n,
            n == msgs@.len(),
            out@ == spec_u32_bytes(msgs@.len() as u32) + spec_client_msgs_bytes(
                msgs@.take(i as int),
            ),
        decreases n - i,
    {
        push_client_msg(&mut out, &msgs[i]);
        proof {
            lemma_client_msgs_bytes_push(msgs@.take(i as int), msgs@[i as int]);
            assert(msgs@.take(i as int).push(msgs@[i as int]) =~= msgs@.take(i as int + 1));
            assert(out@ =~= spec_u32_bytes(msgs@.len() as u32) + spec_client_msgs_bytes(
                msgs@.take(i as int + 1),
            ));
        }
        i = i + 1;
    }
    proof {
        assert(msgs@.take(n as int) =~= msgs@);
    }
    out
}

/// Encodes a batch of server messages into one datagram payload.
pub fn serialize_server(msgs: &Vec<ServerNetMessage>) -> (r: Vec<u8>)
    requires
        msgs@.len() < 0x1_0000_0000,
        forall|i: int| 0 <= i < msgs@.len() ==> spec_server_msg_wf(#[trigger] msgs@[i]),
    ensures
        r@ == spec_server_batch_bytes(msgs@),
{
    let mut out: Vec<u8> = Vec::new();
    push_u32(&mut out, msgs.len() as u32);
    let n = msgs.len();
    let mut i: usize = 0;
    while i < n
        invariant
            i <= n,
            n == msgs@.len(),
            forall|k: int| 0 <= k < msgs@.len() ==> spec_server_msg_wf(#[trigger] msgs@[k]),
            out@ == spec_u32_bytes(msgs@.len() as u32) + spec_server_msgs_bytes(
                msgs@.take(i as int),
            ),
        decreases n - i,
    {
        push_server_msg(&mut out, &msgs[i]);
        proof {
            lemma_server_msgs_bytes_push(msgs@.take(i as int), msgs@[i as int]);
            assert(msgs@.take(i as int).push(msgs@[i as int]) =~= msgs@.take(i as int + 1));
            assert(out@ =~= spec_u32_bytes(msgs@.len() as u32) + spec_server_msgs_bytes(
                msgs@.take(i as int + 1),
            ));
        }
        i = i + 1;
    }
    proof {
        assert(msgs@.take(n as int) =~= msgs@);
    }
    out
}

/// Reads one client message at `pos`.
#[verifier::rlimit(100)]
pub fn parse_client_msg(bytes: &Vec<u8>, pos: usize) -> (r: Option<(ClientNetMessage, usize)>)
    ensures
        r is Some ==> ({
            let (m, end) = r->Some_0;
            &&& pos <= end <= bytes@.len()
            &&& bytes@.subrange(pos as int, end as int) == spec_client_msg_bytes(m)
        }),
{
    let tag = match parse_u8(bytes, pos) {
        Option::Some(v) => v,
        Option::None => { return None },
    };
    if tag.0 == 0 {
        Some((ClientNetMessage::Ping, tag.1))
    } else if tag.0 == 1 {
        let maj = match parse_u8(bytes, tag.1) {
            Option::Some(v) => v,
            Option::None => { return None },
        };
        let min = match parse_u8(bytes, maj.1) {
            Option::Some(v) => v,
            Option::None => { return None },
        };
        let m = ClientNetMessage::Connect { version_major: maj.0, version_minor: min.0 };
        proof {
            lemma_byte_at(bytes@, pos as int, tag.0);
            lemma_byte_at(bytes@, tag.1 as int, maj.0);
            lemma_byte_at(bytes@, maj.1 as int, min.0);
            assert(bytes@.subrange(pos as int, min.1 as int) =~= spec_client_msg_bytes(m));
        }
        Some((m, min.1))
    } else if tag.0 == 2 {
        Some((ClientNetMessage::Join, tag.1))
    } else if tag.0 == 3 {
        Some((ClientNetMessage::JoinComplete, tag.1))
    } else if tag.0 == 4 {
        let h = match parse_humanoid(bytes, tag.1) {
            Option::Some(v) => v,
            Option::None => { return None },
        };
        let m = ClientNetMessage::SyncPlayer { player: h.0 };
        proof {
            assert(bytes@.subrange(pos as int, h.1 as int) =~= spec_client_msg_bytes(m));
        }
        Some((m, h.1))
    } else if tag.0 == 5 {
        let x = match parse_u16(bytes, tag.1) {
            Option::Some(v) => v,
            Option::None => { return None },
        };
        let y = match parse_u16(bytes, x.1) {
            Option::Some(v) => v,
            Option::None => { return None },
        };
        let sq = match parse_u32(bytes, y.1) {
            Option::Some(v) => v,
            Option::None => { return None },
        };
        let m = ClientNetMessage::RequestChunk { x: x.0, y: y.0, seq: sq.0 };
        proof {
            assert(bytes@.subrange(pos as int, sq.1 as int) =~= spec_client_msg_bytes(m));
        }
        Some((m, sq.1))
    } else {
        None
    }
}

/// Reads one server message at `pos`.
#[verifier::rlimit(100)]
pub fn parse_server_msg(bytes: &Vec<u8>, pos: usize) -> (r: Option<(ServerNetMessage, usize)>)
    ensures
        r is Some ==> ({
            let (m, end) = r->Some_0;
            &&& pos <= end <= bytes@.len()
            &&& bytes@.subrange(pos as int, end as int) == spec_server_msg_bytes(m)
            &&& spec_server_msg_wf(m)
        }),
{
    let tag = match parse_u8(bytes, pos) {
        Option::Some(v) => v,
        Option::None => { return None },
    };
    if tag.0 == 0 {
        Some((ServerNetMessage::Ping, tag.1))
    } else if tag.0 == 1 {
        Some((ServerNetMessage::ConnectAccept, tag.1))
    } else if tag.0 == 2 {
        let maj = match parse_u8(bytes, tag.1) {
            Option::Some(v) => v,
            Option::None => { return None },
        };
        let min = match parse_u8(bytes, maj.1) {
            Option::Some(v) => v,
            Option::None => { return None },
        };
        let m = ServerNetMessage::ConnectReject { version_major: maj.0, version_minor: min.0 };
        proof {
            lemma_byte_at(bytes@, pos as int, tag.0);
            lemma_byte_at(bytes@, tag.1 as int, maj.0);
            lemma_byte_at(bytes@, maj.1 as int, min.0);
            assert(bytes@.subrange(pos as int, min.1 as int) =~= spec_server_msg_bytes(m));
        }
        Some((m, min.1))
    } else if tag.0 == 3 {
        let w = match parse_u16(bytes, tag.1) {
            Option::Some(v) => v,
            Option::None => { return None },
        };
        let h = match parse_u16(bytes, w.1) {
            Option::Some(v) => v,
            Option::None => { return None },
        };
        let id = match parse_u32(bytes, h.1) {
            Option::Some(v) => v,
            Option::None => { return None },
        };
        let sx = match parse_u16(bytes, id.1) {
            Option::Some(v) => v,
            Option::None => { return None },
        };
        let sy = match parse_u16(bytes, sx.1) {
            Option::Some(v) => v,
            Option::None => { return None },
        };
        let m = ServerNetMessage::JoinAccept {
            width: w.0,
            height: h.0,
            id: HumanoidId(id.0),
            spawn_x: sx.0,
            spawn_y: sy.0,
        };
        proof {
            assert(bytes@.subrange(pos as int, sy.1 as int) =~= spec_server_msg_bytes(m));
        }
        Some((m, sy.1))
    } else if tag.0 == 4 {
        let x = match parse_u16(bytes, tag.1) {
            Option::Some(v) => v,
            Option::None => { return None },
        };
        let y = match parse_u16(bytes, x.1) {
            Option::Some(v) => v,
            Option::None => { return None },
        };
        let sq = match parse_u32(bytes, y.1) {
            Option::Some(v) => v,
            Option::None => { return None },
        };
        let fg = match parse_tiles64(bytes, sq.1) {
            Option::Some(v) => v,
            Option::None => { return None },
        };
        let bg = match parse_tiles64(bytes, fg.1) {
            Option::Some(v) => v,
            Option::None => { return None },
        };
        let ghost bg_end = bg.1;
        let m = ServerNetMessage::ChunkSync {
            x: x.0,
            y: y.0,
            seq: sq.0,
            fg_tiles: fg.0,
            bg_tiles: bg.0,
        };
        proof {
            assert(bytes@.subrange(pos as int, bg_end as int) =~= spec_server_msg_bytes(m));
        }
        Some((m, bg.1))
    } else if tag.0 == 5 {
        let cnt = match parse_u32(bytes, tag.1) {
            Option::Some(v) => v,
            Option::None => { return None },
        };
        let mut hs: Vec<(HumanoidId, Humanoid)> = Vec::new();
        let mut p = cnt.1;
        let mut k: u32 = 0;
        while k < cnt.0
            invariant
                k <= cnt.0,
                hs@.len() == k,
                pos <= p <= bytes@.len(),
                cnt.1 <= p,
                bytes@.subrange(cnt.1 as int, p as int) == spec_humanoid_list_bytes(hs@),
            decreases cnt.0 - k,
        {
            let id = match parse_u32(bytes, p) {
                Option::Some(v) => v,
                Option::None => { return None },
            };
            let h = match parse_humanoid(bytes, id.1) {
                Option::Some(v) => v,
                Option::None => { return None },
            };
            let ghost hs_pre = hs@;
            let ghost p_pre = p;
            hs.push((HumanoidId(id.0), h.0));
            proof {
                lemma_humanoid_list_bytes_push(hs_pre, (HumanoidId(id.0), h.0));
                lemma_subrange_concat(bytes@, cnt.1 as int, p_pre as int, id.1 as int);
                lemma_subrange_concat(bytes@, cnt.1 as int, id.1 as int, h.1 as int);
                assert(hs@ =~= hs_pre.push((HumanoidId(id.0), h.0)));
                assert(bytes@.subrange(cnt.1 as int, h.1 as int) =~= spec_humanoid_list_bytes(
                    hs@,
                ));
            }
            p = h.1;
            k = k + 1;
        }
        let m = ServerNetMessage::HumanoidSync { humanoids: hs };
        proof {
            lemma_subrange_concat(bytes@, pos as int, cnt.1 as int, p as int);
            assert(bytes@.subrange(pos as int, p as int) =~= spec_server_msg_bytes(m));
        }
        Some((m, p))
    } else if tag.0 == 6 {
        Some((ServerNetMessage::Start, tag.1))
    } else {
        None
    }
}

/// Decodes a whole client batch; accepts only an exact encoding, so a decoded
/// batch re-encodes to the input bytes.
pub fn deserialize_client(bytes: &Vec<u8>) -> (r: Option<Vec<ClientNetMessage>>)
    ensures
        r is Some ==> bytes@ == spec_client_batch_bytes(r->Some_0@),
{
    let cnt = match parse_u32(bytes, 0) {
        Option::Some(v) => v,
        Option::None => { return None },
    };
    let mut out: Vec<ClientNetMessage> = Vec::new();
    let mut p = cnt.1;
    let mut k: u32 = 0;
    while k < cnt.0
        invariant
            k <= cnt.0,
            out@.len() == k,
            cnt.1 <= p <= bytes@.len(),
            cnt.1 == 4,
            bytes@.subrange(0, 4) == spec_u32_bytes(cnt.0),
            bytes@.subrange(4, p as int) == spec_client_msgs_bytes(out@),
        decreases cnt.0 - k,
    {
        let m = match parse_client_msg(bytes, p) {
            Option::Some(v) => v,
            Option::None => { return None },
        };
        let ghost out_pre = out@;
        let ghost p_pre = p;
        out.push(m.0);
        proof {
            lemma_client_msgs_bytes_push(out_pre, m.0);
            lemma_subrange_concat(bytes@, 4, p_pre as int, m.1 as int);
            assert(out@ =~= out_pre.push(m.0));
            assert(bytes@.subrange(4, m.1 as int) =~= spec_client_msgs_bytes(out@));
        }
        p = m.1;
        k = k + 1;
    }
    if p != bytes.len() {
        return None;
    }
    proof {
        lemma_subrange_concat(bytes@, 0, 4, p as int);
        assert(bytes@.subrange(0, bytes@.len() as int) =~= bytes@);
        assert(bytes@ =~= spec_client_batch_bytes(out@));
    }
    Some(out)
}

/// Decodes a whole server batch; accepts only an exact encoding, so a decoded
/// batch re-encodes to the input bytes.
pub fn deserialize_server(bytes: &Vec<u8>) -> (r: Option<Vec<ServerNetMessage>>)
    ensures
        r is Some ==> bytes@ == spec_server_batch_bytes(r->Some_0@),
        r is Some ==> forall|i: int|
            0 <= i < r->Some_0@.len() ==> spec_server_msg_wf(#[trigger] r->Some_0@[i]),
{
    let cnt = match parse_u32(bytes, 0) {
        Option::Some(v) => v,
        Option::None => { return None },
    };
    let mut out: Vec<ServerNetMessage> = Vec::new();
    let mut p = cnt.1;
    let mut k: u32 = 0;
    while k < cnt.0
        invariant
            k <= cnt.0,
            out@.len() == k,
            cnt.1 <= p <= bytes@.len(),
            cnt.1 == 4,
            bytes@.subrange(0, 4) == spec_u32_bytes(cnt.0),
            bytes@.subrange(4, p as int) == spec_server_msgs_bytes(out@),
            forall|i: int| 0 <= i < out@.len() ==> spec_server_msg_wf(#[trigger] out@[i]),
        decreases cnt.0 - k,
    {
        let m = match parse_server_msg(bytes, p) {
            Option::Some(v) => v,
            Option::None => { return None },
        };
        let ghost out_pre = out@;
        let ghost p_pre = p;
        out.push(m.0);
        proof {
            lemma_server_msgs_bytes_push(out_pre, m.0);
            lemma_subrange_concat(bytes@, 4, p_pre as int, m.1 as int);
            assert(out@ =~= out_pre.push(m.0));
            assert(bytes@.subrange(4, m.1 as int) =~= spec_server_msgs_bytes(out@));
        }
        p = m.1;
        k = k + 1;
    }
    if p != bytes.len() {
        return None;
    }
    proof {
        lemma_subrange_concat(bytes@, 0, 4, p as int);
        assert(bytes@.subrange(0, bytes@.len() as int) =~= bytes@);
        assert(bytes@ =~= spec_server_batch_bytes(out@));
    }
    Some(out)
}


} // verus!
