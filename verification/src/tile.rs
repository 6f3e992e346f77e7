//! Tile types of the world grid and their static per-tile properties.

use vstd::prelude::*;

verus! {

/// Side length of one square tile, in pixels.
pub const TILE_SIZE: usize = 16;

/// Side length of one square tile, in micro-pixels.
pub const TILE_SIZE_SUB: i64 = 16_000_000;

/// Number of distinct tile types.
pub const TILE_COUNT: usize = 7;

/// Side length of one chunk, in tiles.
pub const CHUNK_SIZE: usize = 8;

/// Number of tiles in one chunk.
pub const CHUNK_AREA: usize = 64;

/// One cell of the world grid.
#[derive(Copy, Clone, Debug, PartialEq, Eq, Structural)]
pub enum Tile {
    Air,
    Dirt,
    Stone,
    DenseStone,
    RedTorch,
    GreenTorch,
    BlueTorch,
}

/// Numeric code of a tile on the wire.
pub open spec fn spec_tile_code(t: Tile) -> u8 {
    match t {
        Tile::Air => 0,
        Tile::Dirt => 1,
        Tile::Stone => 2,
        Tile::DenseStone => 3,
        Tile::RedTorch => 4,
        Tile::GreenTorch => 5,
        Tile::BlueTorch => 6,
    }
}

/// Tile denoted by a numeric code, if any.
pub open spec fn spec_tile_from_code(c: u8) -> Option<Tile> {
    if c == 0 {
        Some(Tile::Air)
    } else if c == 1 {
        Some(Tile::Dirt)
    } else if c == 2 {
        Some(Tile::Stone)
    } else if c == 3 {
        Some(Tile::DenseStone)
    } else if c == 4 {
        Some(Tile::RedTorch)
    } else if c == 5 {
        Some(Tile::GreenTorch)
    } else if c == 6 {
        Some(Tile::BlueTorch)
    } else {
        None
    }
}

impl Tile {
    /// Numeric code of this tile.
    pub fn code(self) -> (r: u8)
        ensures
            r == spec_tile_code(self),
            r < TILE_COUNT,
    {
        match self {
            Tile::Air => 0,
            Tile::Dirt => 1,
            Tile::Stone => 2,
            Tile::DenseStone => 3,
            Tile::RedTorch => 4,
            Tile::GreenTorch => 5,
            Tile::BlueTorch => 6,
        }
    }

    /// Tile denoted by a numeric code, if any.
    pub fn from_code(c: u8) -> (r: Option<Tile>)
        ensures
            r == spec_tile_from_code(c),
    {
        if c == 0 {
            Some(Tile::Air)
        } else if c == 1 {
            Some(Tile::Dirt)
        } else if c == 2 {
            Some(Tile::Stone)
        } else if c == 3 {
            Some(Tile::DenseStone)
        } else if c == 4 {
            Some(Tile::RedTorch)
        } else if c == 5 {
            Some(Tile::GreenTorch)
        } else if c == 6 {
            Some(Tile::BlueTorch)
        } else {
            None
        }
    }
}

/// A tile code always decodes back to the tile it encodes.
pub proof fn lemma_tile_code_round_trip(t: Tile)
    ensures
        spec_tile_from_code(spec_tile_code(t)) == Some(t),
{
}

/// Whether a tile blocks movement: every tile but open air is solid.
pub open spec fn spec_tile_solid(t: Tile) -> bool {
    t != Tile::Air
}

/// Attenuation and self-emission of a tile.
#[derive(Copy, Clone, Debug)]
pub struct TileLightProperty {
    pub fade: u8,
    pub light: (u8, u8, u8),
}

/// Attenuation of a tile: minimal for air and torches, strong for solid
/// ground, strongest for dense stone.
pub open spec fn spec_tile_fade(t: Tile) -> u8 {
    match t {
        Tile::Dirt => crate::light::FADE_SOLID,
        Tile::Stone => crate::light::FADE_SOLID,
        Tile::DenseStone => crate::light::FADE_DENSE,
        _ => crate::light::FADE_MIN,
    }
}

/// Self-emission of a tile: torches glow in their own channel.
pub open spec fn spec_tile_light(t: Tile) -> (u8, u8, u8) {
    match t {
        Tile::RedTorch => ((crate::light::LIGHT_MAX - 10) as u8, 0u8, 0u8),
        Tile::GreenTorch => (0u8, (crate::light::LIGHT_MAX - 10) as u8, 0u8),
        Tile::BlueTorch => (0u8, 0u8, (crate::light::LIGHT_MAX - 10) as u8),
        _ => (0u8, 0u8, 0u8),
    }
}

impl TileLightProperty {
    /// Light property of one tile.
    pub fn of(t: Tile) -> (r: Self)
        ensures
            r.fade == spec_tile_fade(t),
            r.light == spec_tile_light(t),
    {
        match t {
            Tile::Dirt => TileLightProperty { fade: crate::light::FADE_SOLID, light: (0, 0, 0) },
            Tile::Stone => TileLightProperty { fade: crate::light::FADE_SOLID, light: (0, 0, 0) },
            Tile::DenseStone => TileLightProperty {
                fade: crate::light::FADE_DENSE,
                light: (0, 0, 0),
            },
            Tile::RedTorch => TileLightProperty {
                fade: crate::light::FADE_MIN,
                light: (crate::light::LIGHT_MAX - 10, 0, 0),
            },
            Tile::GreenTorch => TileLightProperty {
                fade: crate::light::FADE_MIN,
                light: (0, crate::light::LIGHT_MAX - 10, 0),
            },
            Tile::BlueTorch => TileLightProperty {
                fade: crate::light::FADE_MIN,
                light: (0, 0, crate::light::LIGHT_MAX - 10),
            },
            Tile::Air => TileLightProperty { fade: crate::light::FADE_MIN, light: (0, 0, 0) },
        }
    }

    /// Light properties of every tile, indexed by tile code.
    pub fn gen() -> (r: [TileLightProperty; 7])
        ensures
            forall|t: Tile| #[trigger] r@[spec_tile_code(t) as int] == (TileLightProperty {
                fade: spec_tile_fade(t),
                light: spec_tile_light(t),
            }),
    {
        let r = [
            TileLightProperty::of(Tile::Air),
            TileLightProperty::of(Tile::Dirt),
            TileLightProperty::of(Tile::Stone),
            TileLightProperty::of(Tile::DenseStone),
            TileLightProperty::of(Tile::RedTorch),
            TileLightProperty::of(Tile::GreenTorch),
            TileLightProperty::of(Tile::BlueTorch),
        ];
        proof {
            assert forall|t: Tile| #[trigger] r@[spec_tile_code(t) as int] == (TileLightProperty {
                fade: spec_tile_fade(t),
                light: spec_tile_light(t),
            }) by {
                match t {
                    Tile::Air => assert(spec_tile_code(t) == 0),
                    Tile::Dirt => assert(spec_tile_code(t) == 1),
                    Tile::Stone => assert(spec_tile_code(t) == 2),
                    Tile::DenseStone => assert(spec_tile_code(t) == 3),
                    Tile::RedTorch => assert(spec_tile_code(t) == 4),
                    Tile::GreenTorch => assert(spec_tile_code(t) == 5),
                    Tile::BlueTorch => assert(spec_tile_code(t) == 6),
                }
            }
        }
        r
    }
}

/// Per-tile attenuation is at least the minimum fade, and self-emission
/// never exceeds the brightness cap.
pub proof fn lemma_tile_property_bounds(t: Tile)
    ensures
        spec_tile_fade(t) >= 1,
        spec_tile_light(t).0 <= 40,
        spec_tile_light(t).1 <= 40,
        spec_tile_light(t).2 <= 40,
{
    match t {
        Tile::Air => {},
        Tile::Dirt => {},
        Tile::Stone => {},
        Tile::DenseStone => {},
        Tile::RedTorch => {},
        Tile::GreenTorch => {},
        Tile::BlueTorch => {},
    }
}

/// Collision behaviour of a tile.
#[derive(Copy, Clone, Debug, PartialEq, Eq, Structural)]
pub struct TilePhysicsProperty {
    pub solid: bool,
}

impl TilePhysicsProperty {
    /// Physics property of one tile.
    pub fn of(t: Tile) -> (r: Self)
        ensures
            r.solid == spec_tile_solid(t),
    {
        match t {
            Tile::Air => TilePhysicsProperty { solid: false },
            _ => TilePhysicsProperty { solid: true },
        }
    }

    /// Physics properties of every tile, indexed by tile code.
    pub fn gen() -> (r: [TilePhysicsProperty; 7])
        ensures
            forall|t: Tile| #[trigger] r@[spec_tile_code(t) as int] == (TilePhysicsProperty {
                solid: spec_tile_solid(t),
            }),
    {
        let r = [
            TilePhysicsProperty { solid: false },
            TilePhysicsProperty { solid: true },
            TilePhysicsProperty { solid: true },
            TilePhysicsProperty { solid: true },
            TilePhysicsProperty { solid: true },
            TilePhysicsProperty { solid: true },
            TilePhysicsProperty { solid: true },
        ];
        proof {
            assert forall|t: Tile| #[trigger] r@[spec_tile_code(t) as int] == (TilePhysicsProperty {
                solid: spec_tile_solid(t),
            }) by {
                match t {
                    Tile::Air => assert(r@[0].solid == false),
                    _ => {}
                }
            }
        }
        r
    }
}

} // verus!
