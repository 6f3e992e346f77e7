//! Terrain generation: classifying cells from sampled noise.
//!
//! The noise itself is sampled outside this crate; a sample arrives as a
//! fixed-point value in millionths.  Classification of a cell from its
//! samples is pure and lives here.

use vstd::prelude::*;

verus! {

/// A generated block, before it becomes a tile.
#[derive(Copy, Clone, Debug, PartialEq, Eq, Structural)]
pub enum Block {
    Air,
    Water,
    Dirt,
    Rock,
    Sand,
    Coal,
    Iron,
    Tin,
    Copper,
}

/// Tile code of a generated block.
pub open spec fn spec_block_code(b: Block) -> u8 {
    match b {
        Block::Air => 0,
        Block::Water => 0,
        Block::Dirt => 1,
        Block::Rock => 2,
        Block::Sand => 1,
        Block::Coal => 0,
        Block::Iron => 1,
        Block::Tin => 2,
        Block::Copper => 0,
    }
}

impl Block {
    /// Tile code of this block.
    pub fn to_u8(self) -> (r: u8)
        ensures
            r == spec_block_code(self),
    {
        match self {
            Block::Air => 0,
            Block::Water => 0,
            Block::Dirt => 1,
            Block::Rock => 2,
            Block::Sand => 1,
            Block::Coal => 0,
            Block::Iron => 1,
            Block::Tin => 2,
            Block::Copper => 0,
        }
    }
}

/// Classifies one underground cell from its noise samples, all fixed-point
/// in millionths: a lake sample above 0.45 floods it, a cave sample within
/// ±0.1 empties it, the topsoil band turns to sand under the sea or dirt
/// above it, and the ore sample picks the rock or ore by depth.
pub open spec fn spec_classify_cell(
    row: int,
    base: int,
    base_sealevel: int,
    lake_q: int,
    cave_q: int,
    ore_q: int,
    depth_frac_q: int,
) -> Block {
    if row < base_sealevel && lake_q > 450_000 {
        Block::Water
    } else if -100_000 < cave_q && cave_q < 100_000 {
        Block::Air
    } else if row > base - 12 {
        if base < base_sealevel {
            Block::Sand
        } else {
            Block::Dirt
        }
    } else if ore_q < 100_000 {
        Block::Air
    } else if ore_q < 150_000 {
        Block::Sand
    } else if ore_q < 250_000 {
        Block::Dirt
    } else if ore_q < 750_000 {
        Block::Rock
    } else if depth_frac_q > 200_000 {
        Block::Iron
    } else if depth_frac_q > 400_000 {
        Block::Tin
    } else if depth_frac_q > 600_000 {
        Block::Copper
    } else {
        Block::Coal
    }
}

/// Classifies one underground cell from its noise samples.
pub fn classify_cell(
    row: u32,
    base: u32,
    base_sealevel: u32,
    lake_q: i64,
    cave_q: i64,
    ore_q: i64,
    depth_frac_q: i64,
) -> (r: Block)
    ensures
        r == spec_classify_cell(
            row as int,
            base as int,
            base_sealevel as int,
            lake_q as int,
            cave_q as int,
            ore_q as int,
            depth_frac_q as int,
        ),
{
    if row < base_sealevel && lake_q > 450_000 {
        Block::Water
    } else if -100_000 < cave_q && cave_q < 100_000 {
        Block::Air
    } else if row as u64 + 12 > base as u64 {
        if base < base_sealevel {
            Block::Sand
        } else {
            Block::Dirt
        }
    } else if ore_q < 100_000 {
        Block::Air
    } else if ore_q < 150_000 {
        Block::Sand
    } else if ore_q < 250_000 {
        Block::Dirt
    } else if ore_q < 750_000 {
        Block::Rock
    } else if depth_frac_q > 200_000 {
        Block::Iron
    } else if depth_frac_q > 400_000 {
        Block::Tin
    } else if depth_frac_q > 600_000 {
        Block::Copper
    } else {
        Block::Coal
    }
}

} // verus!
