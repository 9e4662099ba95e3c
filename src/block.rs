use rand::Rng;
use vstd::prelude::*;

verus! {

/// The material held by one voxel cell.
#[derive(Clone, Copy, PartialEq, Eq, Structural, Debug)]
pub enum BlockType {
    Air,
    Grass,
    Dirt,
    Stone,
    Coal,
}

/// One voxel cell.
#[derive(Clone, Copy, PartialEq, Eq, Structural, Debug)]
pub struct Block {
    pub block_type: BlockType,
}

/// Every tag but `Air` is solid.
pub open spec fn solid(b: Block) -> bool {
    b.block_type != BlockType::Air
}

impl Block {
    /// An air block.
    pub fn default() -> (r: Self)
        ensures
            r.block_type == BlockType::Air,
    {
        Self { block_type: BlockType::Air }
    }

    /// Returns block solidity.
    pub fn is_solid(&self) -> (r: bool)
        ensures
            r == solid(*self),
    {
        match self.block_type {
            BlockType::Air => false,
            _ => true,
        }
    }
}

/// A texture-atlas coordinate in units of 1/2048 of the atlas side.
///
/// The atlas is a 16 x 16 grid of tiles, so one tile spans 128 units; the
/// corners of a tile are inset by one unit (half a texel of a 1024 texel atlas).
#[derive(Clone, Copy, PartialEq, Eq, Structural, Debug)]
pub struct AtlasUv {
    pub u: u32,
    pub v: u32,
}

/// Width of one atlas tile in atlas units.
pub const ATLAS_TILE: u32 = 128;

/// Inset of a tile's corners in atlas units.
pub const ATLAS_PADDING: u32 = 1;

/// The atlas tile (column, row) that holds a block type's art.
pub open spec fn atlas_tile(t: BlockType) -> (int, int) {
    match t {
        BlockType::Grass => (0, 0),
        BlockType::Dirt => (2, 0),
        BlockType::Stone => (1, 0),
        BlockType::Coal => (2, 2),
        BlockType::Air => (0, 0),
    }
}

/// Corner `j` (counter-clockwise from the low corner) of a block type's tile.
pub open spec fn texture_corner(t: BlockType, j: int) -> AtlasUv {
    let (tx, ty) = atlas_tile(t);
    let u_min = tx * 128 + 1;
    let v_min = ty * 128 + 1;
    let u_max = u_min + 128 - 2;
    let v_max = v_min + 128 - 2;
    if j == 0 {
        AtlasUv { u: u_min as u32, v: v_min as u32 }
    } else if j == 1 {
        AtlasUv { u: u_max as u32, v: v_min as u32 }
    } else if j == 2 {
        AtlasUv { u: u_max as u32, v: v_max as u32 }
    } else {
        AtlasUv { u: u_min as u32, v: v_max as u32 }
    }
}

/// Percentage chance that a stone cell is replaced by this type.
pub open spec fn spawn_chance(t: BlockType) -> u32 {
    match t {
        BlockType::Coal => 5,
        _ => 0,
    }
}

/// Relies on rand::thread_rng and Rng::gen_range: a draw from the range 0..100,
/// which is never empty.
#[verifier::external_body]
fn roll_percent() -> (r: u32)
    ensures
        r < 100,
{
    rand::thread_rng().gen_range(0..100)
}

impl BlockType {
    /// Gets the four texture-atlas corners of this type's tile.
    pub fn get_texture(&self) -> (r: [AtlasUv; 4])
        ensures
            forall|j: int| 0 <= j < 4 ==> #[trigger] r@[j] == texture_corner(*self, j),
    {
        let (tx, ty): (u32, u32) = match self {
            BlockType::Grass => (0, 0),
            BlockType::Dirt => (2, 0),
            BlockType::Stone => (1, 0),
            BlockType::Coal => (2, 2),
            _ => (0, 0),
        };
        let u_min = tx * ATLAS_TILE + ATLAS_PADDING;
        let v_min = ty * ATLAS_TILE + ATLAS_PADDING;
        let u_max = u_min + ATLAS_TILE - 2 * ATLAS_PADDING;
        let v_max = v_min + ATLAS_TILE - 2 * ATLAS_PADDING;
        [
            AtlasUv { u: u_min, v: v_min },
            AtlasUv { u: u_max, v: v_min },
            AtlasUv { u: u_max, v: v_max },
            AtlasUv { u: u_min, v: v_max },
        ]
    }

    /// Decides a rare-block substitution from a percentage roll in 0..100.
    pub fn chance_hit(block_type: BlockType, roll: u32) -> (r: bool)
        ensures
            r == (roll < spawn_chance(block_type)),
    {
        let chance: u32 = match block_type {
            BlockType::Coal => 5,
            _ => 0,
        };
        roll < chance
    }

    /// Returns whether a rare block of this type spawns, drawing a fresh roll.
    pub fn get_chance(block_type: BlockType) -> (r: bool)
        ensures
            r ==> spawn_chance(block_type) > 0,
            spawn_chance(block_type) >= 100 ==> r,
    {
        let roll = roll_percent();
        BlockType::chance_hit(block_type, roll)
    }
}

} // verus!
