use tileworld::net_msg::ServerNetMessage;
use tileworld::server_state::{handle_request_chunk, ChunkRequestReply};
use tileworld::tile::{Tile, CHUNK_AREA, CHUNK_SIZE, TILE_SIZE};
use tileworld::world::World;

#[test]
fn chunk_geometry_constants_agree() {
    assert_eq!(CHUNK_SIZE, 8);
    assert_eq!(CHUNK_AREA, CHUNK_SIZE * CHUNK_SIZE);
    assert_eq!(TILE_SIZE, 16);
}

#[test]
fn stale_or_equal_seq_never_mutates() {
    let mut w = World::new(256, 256, 0);
    let fg = vec![Tile::Stone; 64];
    let bg = vec![Tile::Dirt; 64];
    assert!(w.apply_chunk_sync(2, 3, 5, &fg, &bg));
    let before_fg = w.fg_tiles.clone();
    let before_seq = w.chunk_seqs.clone();
    // Equal sequence number: no mutation.
    assert!(!w.apply_chunk_sync(2, 3, 5, &vec![Tile::RedTorch; 64], &bg));
    assert_eq!(w.fg_tiles, before_fg);
    assert_eq!(w.chunk_seqs, before_seq);
    // Lower sequence number: no mutation.
    assert!(!w.apply_chunk_sync(2, 3, 4, &vec![Tile::RedTorch; 64], &bg));
    assert_eq!(w.fg_tiles, before_fg);
    assert_eq!(w.chunk_seqs, before_seq);
}

#[test]
fn newer_seq_updates_grid_and_seq() {
    let mut w = World::new(256, 256, 0);
    let fg = vec![Tile::Stone; 64];
    let bg = vec![Tile::Dirt; 64];
    assert!(w.apply_chunk_sync(1, 1, 7, &fg, &bg));
    assert_eq!(w.chunk_seq(1, 1), 7);
    // Top-left tile of chunk (1,1) is grid cell (8,8).
    assert_eq!(w.fg_tiles[8 + 8 * 256], Tile::Stone);
    assert_eq!(w.bg_tiles[8 + 8 * 256], Tile::Dirt);
    // A tile outside the chunk is untouched.
    assert_eq!(w.fg_tiles[0], Tile::Air);
    assert_eq!(w.fg_tiles[7 + 8 * 256], Tile::Air);
}

#[test]
fn chunk_request_at_current_seq_sends_nothing() {
    let w = World::new(256, 256, 5);
    match handle_request_chunk(&w, 2, 3, 5) {
        ChunkRequestReply::Current => {},
        other => panic!("expected no resend: {:?}", other),
    }
}

#[test]
fn chunk_request_behind_gets_resend_at_current_seq() {
    let mut w = World::new(256, 256, 4);
    let fg = vec![Tile::Stone; 64];
    let bg = vec![Tile::Dirt; 64];
    assert!(w.apply_chunk_sync(2, 3, 5, &fg, &bg));
    match handle_request_chunk(&w, 2, 3, 3) {
        ChunkRequestReply::Resend(ServerNetMessage::ChunkSync { x, y, seq, fg_tiles, bg_tiles }) => {
            assert_eq!((x, y, seq), (2, 3, 5));
            assert_eq!(fg_tiles, vec![Tile::Stone; 64]);
            assert_eq!(bg_tiles, vec![Tile::Dirt; 64]);
        },
        other => panic!("expected resend: {:?}", other),
    }
}

#[test]
fn chunk_request_ahead_is_a_violation() {
    let w = World::new(256, 256, 5);
    match handle_request_chunk(&w, 2, 3, 6) {
        ChunkRequestReply::Violation => {},
        other => panic!("expected violation: {:?}", other),
    }
}

#[test]
fn extract_chunk_copies_the_rectangle() {
    let mut w = World::new(256, 256, 0);
    let mut fg = vec![Tile::Air; 64];
    fg[9] = Tile::BlueTorch;
    let bg = vec![Tile::Dirt; 64];
    assert!(w.apply_chunk_sync(0, 0, 1, &fg, &bg));
    let (efg, ebg) = w.extract_chunk(0, 0);
    assert_eq!(efg, fg);
    assert_eq!(ebg, bg);
}
