use voxel_terrain::block::BlockType;
use voxel_terrain::chunk::{
    fill_terrain, get_coords, prepare_geometry, Chunk, CHUNK_SIZE_XY, CHUNK_VOLUME,
};

#[test]
fn index_formula_examples() {
    assert_eq!(Chunk::get_index(0, 0, 0), 0);
    assert_eq!(Chunk::get_index(1, 0, 0), 1);
    assert_eq!(Chunk::get_index(0, 0, 1), 16);
    assert_eq!(Chunk::get_index(0, 1, 0), 256);
    assert_eq!(Chunk::get_index(15, 15, 15), 4095);
    assert_eq!(Chunk::get_index(3, 2, 5), 3 + 5 * 16 + 2 * 256);
}

#[test]
fn index_is_a_bijection_onto_the_volume() {
    let mut seen = vec![false; CHUNK_VOLUME];
    for y in 0..16 {
        for z in 0..16 {
            for x in 0..16 {
                let i = Chunk::get_index(x, y, z);
                assert!(i < CHUNK_VOLUME);
                assert!(!seen[i]);
                seen[i] = true;
                assert_eq!(get_coords(i), (x, y, z));
            }
        }
    }
    assert!(seen.iter().all(|s| *s));
}

#[test]
fn new_chunk_is_all_air() {
    let c = Chunk::new();
    assert_eq!(c.blocks.len(), CHUNK_VOLUME);
    assert!(c.blocks.iter().all(|b| b.block_type == BlockType::Air));
}

fn column(c: &Chunk, x: usize, z: usize) -> Vec<BlockType> {
    (0..16).map(|y| c.blocks[Chunk::get_index(x, y, z)].block_type).collect()
}

#[test]
fn fill_rule_for_height_eight() {
    let heights = vec![8usize; CHUNK_SIZE_XY];
    let ore = vec![false; CHUNK_VOLUME];
    let c = fill_terrain(&heights, &ore);
    let col = column(&c, 3, 7);
    for y in 0..5 {
        assert_eq!(col[y], BlockType::Stone);
    }
    for y in 5..8 {
        assert_eq!(col[y], BlockType::Dirt);
    }
    assert_eq!(col[8], BlockType::Grass);
    for y in 9..16 {
        assert_eq!(col[y], BlockType::Air);
    }
}

#[test]
fn fill_rule_places_ore_only_in_stone() {
    let heights = vec![8usize; CHUNK_SIZE_XY];
    let ore = vec![true; CHUNK_VOLUME];
    let c = fill_terrain(&heights, &ore);
    let col = column(&c, 0, 0);
    for y in 0..5 {
        assert_eq!(col[y], BlockType::Coal);
    }
    assert_eq!(col[5], BlockType::Dirt);
    assert_eq!(col[8], BlockType::Grass);
    assert_eq!(col[9], BlockType::Air);
}

#[test]
fn fill_rule_low_column_saturates() {
    let mut heights = vec![8usize; CHUNK_SIZE_XY];
    heights[2 + 4 * 16] = 1;
    heights[5] = 0;
    let ore = vec![false; CHUNK_VOLUME];
    let c = fill_terrain(&heights, &ore);
    let col = column(&c, 2, 4);
    assert_eq!(col[0], BlockType::Dirt);
    assert_eq!(col[1], BlockType::Grass);
    assert_eq!(col[2], BlockType::Air);
    let col = column(&c, 5, 0);
    assert_eq!(col[0], BlockType::Grass);
    assert_eq!(col[1], BlockType::Air);
}

#[test]
fn fill_rule_columns_are_independent() {
    let mut heights = vec![0usize; CHUNK_SIZE_XY];
    for z in 0..16 {
        for x in 0..16 {
            heights[x + z * 16] = (x + z) % 16;
        }
    }
    let ore = vec![false; CHUNK_VOLUME];
    let c = fill_terrain(&heights, &ore);
    for z in 0..16 {
        for x in 0..16 {
            let h = (x + z) % 16;
            assert_eq!(column(&c, x, z)[h], BlockType::Grass);
        }
    }
}

#[test]
fn tall_column_is_capped_by_chunk_height() {
    let heights = vec![40usize; CHUNK_SIZE_XY];
    let ore = vec![false; CHUNK_VOLUME];
    let c = fill_terrain(&heights, &ore);
    assert!(column(&c, 9, 9).iter().all(|t| *t == BlockType::Stone));
}

#[test]
fn terrain_generation_is_deterministic_outside_ore() {
    let mut heights = vec![0usize; CHUNK_SIZE_XY];
    for (i, h) in heights.iter_mut().enumerate() {
        *h = 6 + i % 7;
    }
    let a = prepare_geometry(&heights);
    let b = prepare_geometry(&heights);
    for i in 0..CHUNK_VOLUME {
        let ta = a.blocks[i].block_type;
        let tb = b.blocks[i].block_type;
        let rare_site = |t: BlockType| t == BlockType::Stone || t == BlockType::Coal;
        if rare_site(ta) || rare_site(tb) {
            assert!(rare_site(ta) && rare_site(tb));
        } else {
            assert_eq!(ta, tb);
        }
    }
}

#[test]
fn prepare_geometry_places_some_ore_in_deep_columns() {
    let heights = vec![15usize; CHUNK_SIZE_XY];
    let c = prepare_geometry(&heights);
    let coal = c.blocks.iter().filter(|b| b.block_type == BlockType::Coal).count();
    let stone = c.blocks.iter().filter(|b| b.block_type == BlockType::Stone).count();
    assert_eq!(coal + stone, 12 * 256);
    assert!(coal > 0);
    assert!(coal < stone);
}
