//! Render-ready snapshot handed to an external renderer after each tick.
//!
//! All geometry is in fixed-point micro-pixels or whole tiles; turning these
//! into GPU-side floats is the renderer's concern.

use crate::tile::Tile;
use vstd::prelude::*;

verus! {

/// One sprite to draw: box in micro-pixels, texture origin in pixels.
#[derive(Copy, Clone, Debug, PartialEq, Eq, Structural)]
pub struct SpriteRenderDesc {
    pub x: i64,
    pub y: i64,
    pub u: i64,
    pub v: i64,
    pub w: i64,
    pub h: i64,
}

/// One tile to draw.
#[derive(Copy, Clone, Debug, PartialEq, Eq, Structural)]
pub struct TileRenderDesc(pub Tile);

/// Everything the renderer needs for one frame.
#[derive(Clone, Debug)]
pub struct GameRenderDesc {
    pub viewport_x: usize,
    pub viewport_y: usize,
    pub viewport_w: usize,
    pub viewport_h: usize,
    pub sprites: Vec<SpriteRenderDesc>,
    pub light_x: usize,
    pub light_y: usize,
    pub light_w: usize,
    pub light_h: usize,
    pub r_channel: Vec<u8>,
    pub g_channel: Vec<u8>,
    pub b_channel: Vec<u8>,
    pub tiles_x: usize,
    pub tiles_y: usize,
    pub tiles_w: usize,
    pub tiles_h: usize,
    pub fg_tiles: Vec<TileRenderDesc>,
    pub bg_tiles: Vec<TileRenderDesc>,
}

} // verus!
