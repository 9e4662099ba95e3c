use vstd::prelude::*;
use vstd::arithmetic::div_mod::{lemma_fundamental_div_mod, lemma_fundamental_div_mod_converse};

use crate::block::{Block, BlockType, solid};

verus! {

pub const CHUNK_SIZE_X: usize = 16;
pub const CHUNK_SIZE_Y: usize = 16;
pub const CHUNK_SIZE_Z: usize = 16;
pub const CHUNK_SIZE_XY: usize = CHUNK_SIZE_X * CHUNK_SIZE_Z;
pub const CHUNK_VOLUME: usize = CHUNK_SIZE_X * CHUNK_SIZE_Y * CHUNK_SIZE_Z;

/// Linear index of the cell at local `(x, y, z)`.
pub open spec fn block_index(x: int, y: int, z: int) -> int {
    x + z * 16 + y * 256
}

/// Whether `(x, y, z)` lies inside a chunk.
pub open spec fn in_chunk(x: int, y: int, z: int) -> bool {
    0 <= x < 16 && 0 <= y < 16 && 0 <= z < 16
}

/// Local x coordinate of the cell with linear index `i`.
pub open spec fn cell_x(i: int) -> int {
    i % 16
}

/// Local y coordinate of the cell with linear index `i`.
pub open spec fn cell_y(i: int) -> int {
    i / 256
}

/// Local z coordinate of the cell with linear index `i`.
pub open spec fn cell_z(i: int) -> int {
    (i / 16) % 16
}

/// The linear index maps in-chunk coordinates into `[0, CHUNK_VOLUME)` and
/// the coordinates can be read back from it, so no two cells share an index.
pub proof fn lemma_index_inverse(x: int, y: int, z: int)
    requires
        in_chunk(x, y, z),
    ensures
        0 <= block_index(x, y, z) < CHUNK_VOLUME,
        cell_x(block_index(x, y, z)) == x,
        cell_y(block_index(x, y, z)) == y,
        cell_z(block_index(x, y, z)) == z,
{
    let i = block_index(x, y, z);
    lemma_fundamental_div_mod_converse(i, 16, z + 16 * y, x);
    lemma_fundamental_div_mod_converse(i / 16, 16, y, z);
    lemma_fundamental_div_mod_converse(i, 256, y, x + z * 16);
}

/// Every index in `[0, CHUNK_VOLUME)` is the index of exactly the in-chunk
/// cell whose coordinates are read back from it.
pub proof fn lemma_coords_inverse(i: int)
    requires
        0 <= i < CHUNK_VOLUME,
    ensures
        in_chunk(cell_x(i), cell_y(i), cell_z(i)),
        block_index(cell_x(i), cell_y(i), cell_z(i)) == i,
{
    lemma_fundamental_div_mod(i, 16);
    lemma_fundamental_div_mod(i / 16, 16);
    let q = i / 16;
    assert(i == 256 * (q / 16) + (16 * (q % 16) + i % 16));
    lemma_fundamental_div_mod_converse(i, 256, q / 16, 16 * (q % 16) + i % 16);
}

/// The linear index is injective on in-chunk coordinates and its image is
/// exactly `[0, CHUNK_VOLUME)`.
pub proof fn lemma_index_bijective()
    ensures
        forall|x1: int, y1: int, z1: int, x2: int, y2: int, z2: int|
            in_chunk(x1, y1, z1) && in_chunk(x2, y2, z2) && #[trigger] block_index(x1, y1, z1)
                == #[trigger] block_index(x2, y2, z2) ==> x1 == x2 && y1 == y2 && z1 == z2,
        forall|x: int, y: int, z: int|
            in_chunk(x, y, z) ==> 0 <= #[trigger] block_index(x, y, z) < CHUNK_VOLUME,
        forall|i: int|
            0 <= i < CHUNK_VOLUME ==> in_chunk(cell_x(i), cell_y(i), cell_z(i)) && #[trigger] block_index(
                cell_x(i),
                cell_y(i),
                cell_z(i),
            ) == i,
{
    assert forall|x1: int, y1: int, z1: int, x2: int, y2: int, z2: int|
        in_chunk(x1, y1, z1) && in_chunk(x2, y2, z2) && #[trigger] block_index(x1, y1, z1)
            == #[trigger] block_index(x2, y2, z2) implies x1 == x2 && y1 == y2 && z1 == z2 by {
        lemma_index_inverse(x1, y1, z1);
        lemma_index_inverse(x2, y2, z2);
    }
    assert forall|x: int, y: int, z: int| in_chunk(x, y, z) implies 0 <= #[trigger] block_index(
        x,
        y,
        z,
    ) < CHUNK_VOLUME by {
        lemma_index_inverse(x, y, z);
    }
    assert forall|i: int| 0 <= i < CHUNK_VOLUME implies in_chunk(cell_x(i), cell_y(i), cell_z(i))
        && #[trigger] block_index(cell_x(i), cell_y(i), cell_z(i)) == i by {
        lemma_coords_inverse(i);
    }
}

/// Returns the local coordinates `(x, y, z)` of the cell with linear index `i`.
pub fn get_coords(i: usize) -> (r: (usize, usize, usize))
    requires
        i < CHUNK_VOLUME,
    ensures
        r.0 == cell_x(i as int),
        r.1 == cell_y(i as int),
        r.2 == cell_z(i as int),
        in_chunk(r.0 as int, r.1 as int, r.2 as int),
        block_index(r.0 as int, r.1 as int, r.2 as int) == i,
{
    proof {
        lemma_coords_inverse(i as int);
    }
    (i % CHUNK_SIZE_X, i / CHUNK_SIZE_XY, (i / CHUNK_SIZE_X) % CHUNK_SIZE_Z)
}

/// A fixed-size cuboid of blocks, stored densely by linear index.
pub struct Chunk {
    pub blocks: Vec<Block>,
}

impl Chunk {
    /// A chunk holds exactly one block per cell.
    pub open spec fn wf(&self) -> bool {
        self.blocks@.len() == CHUNK_VOLUME
    }

    /// A chunk filled with air.
    pub fn new() -> (r: Self)
        ensures
            r.wf(),
            forall|i: int| 0 <= i < CHUNK_VOLUME ==> (#[trigger] r.blocks@[i]).block_type
                == BlockType::Air,
    {
        let mut blocks: Vec<Block> = Vec::new();
        let mut i: usize = 0;
        while i < CHUNK_VOLUME
            invariant
                i <= CHUNK_VOLUME,
                blocks@.len() == i,
                forall|k: int| 0 <= k < i ==> (#[trigger] blocks@[k]).block_type == BlockType::Air,
            decreases CHUNK_VOLUME - i,
        {
            blocks.push(Block::default());
            i = i + 1;
        }
        Self { blocks }
    }

    /// Linear index of the cell at local `(block_x, block_y, block_z)`.
    pub fn get_index(block_x: usize, block_y: usize, block_z: usize) -> (r: usize)
        requires
            in_chunk(block_x as int, block_y as int, block_z as int),
        ensures
            r == block_index(block_x as int, block_y as int, block_z as int),
            r < CHUNK_VOLUME,
    {
        block_x + block_z * CHUNK_SIZE_X + block_y * CHUNK_SIZE_XY
    }
}

/// Whether the cell at height `y` of a column whose surface is at `h` is deep
/// enough to hold stone, and so possibly a rare block.
pub open spec fn is_ore_site(h: int, y: int) -> bool {
    y < h - 3
}

/// The block of the fill rule at height `y` of a column with surface `h`:
/// grass at the surface, three dirt blocks below it, stone or a rare block
/// further down, air above.
pub open spec fn column_block(h: int, y: int, ore: bool) -> BlockType {
    if y > h {
        BlockType::Air
    } else if y == h {
        BlockType::Grass
    } else if y >= h - 3 {
        BlockType::Dirt
    } else if ore {
        BlockType::Coal
    } else {
        BlockType::Stone
    }
}

/// Surface height of the column through cell `i`.
pub open spec fn column_height(heights: Seq<usize>, i: int) -> int {
    heights[cell_x(i) + cell_z(i) * 16] as int
}

/// The cell `i` of a chunk filled from `heights`, where `ore` says whether a
/// stone cell became a rare block.
pub open spec fn terrain_cell(heights: Seq<usize>, i: int, ore: bool) -> BlockType {
    column_block(column_height(heights, i), cell_y(i), ore)
}

/// A chunk that the fill rule can produce from `heights`, whatever the rare
/// block rolls gave.
pub open spec fn filled_from(heights: Seq<usize>, c: Chunk) -> bool {
    &&& c.wf()
    &&& forall|i: int|
        0 <= i < CHUNK_VOLUME ==> {
            ||| (#[trigger] c.blocks@[i]).block_type == terrain_cell(heights, i, false)
            ||| (is_ore_site(column_height(heights, i), cell_y(i)) && c.blocks@[i].block_type
                == terrain_cell(heights, i, true))
        }
}

/// Fills a chunk from a height per column (indexed `x + z * 16`) and, per
/// cell, whether a stone cell there becomes a rare block.
pub fn fill_terrain(heights: &Vec<usize>, ore: &Vec<bool>) -> (chunk: Chunk)
    requires
        heights@.len() == CHUNK_SIZE_XY,
        ore@.len() == CHUNK_VOLUME,
    ensures
        chunk.wf(),
        forall|i: int|
            0 <= i < CHUNK_VOLUME ==> (#[trigger] chunk.blocks@[i]).block_type == terrain_cell(
                heights@,
                i,
                ore@[i],
            ),
{
    let mut blocks: Vec<Block> = Vec::new();
    let mut i: usize = 0;
    while i < CHUNK_VOLUME
        invariant
            i <= CHUNK_VOLUME,
            heights@.len() == CHUNK_SIZE_XY,
            ore@.len() == CHUNK_VOLUME,
            blocks@.len() == i,
            forall|k: int|
                0 <= k < i ==> (#[trigger] blocks@[k]).block_type == terrain_cell(
                    heights@,
                    k,
                    ore@[k],
                ),
        decreases CHUNK_VOLUME - i,
    {
        let (x, y, z) = get_coords(i);
        let h = heights[x + z * CHUNK_SIZE_X];
        let block_type = if y > h {
            BlockType::Air
        } else if y == h {
            BlockType::Grass
        } else if y >= h.saturating_sub(3) {
            BlockType::Dirt
        } else if ore[i] {
            BlockType::Coal
        } else {
            BlockType::Stone
        };
        blocks.push(Block { block_type });
        i = i + 1;
    }
    Chunk { blocks }
}

/// Generates the terrain of one chunk from a height per column (indexed
/// `x + z * 16`), drawing a fresh rare-block roll for every cell.
pub fn prepare_geometry(heights: &Vec<usize>) -> (chunk: Chunk)
    requires
        heights@.len() == CHUNK_SIZE_XY,
    ensures
        filled_from(heights@, chunk),
{
    let mut ore: Vec<bool> = Vec::new();
    let mut i: usize = 0;
    while i < CHUNK_VOLUME
        invariant
            i <= CHUNK_VOLUME,
            ore@.len() == i,
        decreases CHUNK_VOLUME - i,
    {
        ore.push(BlockType::get_chance(BlockType::Coal));
        i = i + 1;
    }
    fill_terrain(heights, &ore)
}

/// Two chunks generated from the same heights agree on every cell that is not
/// a rare-block site, and on those sites both hold stone or the rare block.
pub proof fn lemma_terrain_deterministic(heights: Seq<usize>, c1: Chunk, c2: Chunk)
    requires
        heights.len() == CHUNK_SIZE_XY,
        filled_from(heights, c1),
        filled_from(heights, c2),
    ensures
        forall|i: int|
            0 <= i < CHUNK_VOLUME && !is_ore_site(column_height(heights, i), cell_y(i))
                ==> #[trigger] c1.blocks@[i] == c2.blocks@[i],
        forall|i: int|
            0 <= i < CHUNK_VOLUME && is_ore_site(column_height(heights, i), cell_y(i)) ==> {
                &&& solid(#[trigger] c1.blocks@[i])
                &&& solid(c2.blocks@[i])
                &&& (c1.blocks@[i].block_type == BlockType::Stone || c1.blocks@[i].block_type
                    == BlockType::Coal)
                &&& (c2.blocks@[i].block_type == BlockType::Stone || c2.blocks@[i].block_type
                    == BlockType::Coal)
            },
{
}

} // verus!
