use voxel_terrain::block::{AtlasUv, Block, BlockType};

#[test]
fn default_block_is_air() {
    let b = Block::default();
    assert_eq!(b.block_type, BlockType::Air);
    assert!(!b.is_solid());
}

#[test]
fn every_tag_but_air_is_solid() {
    for t in [BlockType::Grass, BlockType::Dirt, BlockType::Stone, BlockType::Coal] {
        assert!(Block { block_type: t }.is_solid());
    }
    assert!(!Block { block_type: BlockType::Air }.is_solid());
}

#[test]
fn texture_corners_of_grass_tile() {
    let uv = BlockType::Grass.get_texture();
    assert_eq!(
        uv,
        [
            AtlasUv { u: 1, v: 1 },
            AtlasUv { u: 127, v: 1 },
            AtlasUv { u: 127, v: 127 },
            AtlasUv { u: 1, v: 127 },
        ]
    );
}

#[test]
fn texture_corners_of_other_tiles() {
    assert_eq!(BlockType::Dirt.get_texture()[0], AtlasUv { u: 257, v: 1 });
    assert_eq!(BlockType::Stone.get_texture()[2], AtlasUv { u: 255, v: 127 });
    assert_eq!(BlockType::Coal.get_texture()[3], AtlasUv { u: 257, v: 383 });
    // Air has no art of its own and falls back to the first tile.
    assert_eq!(BlockType::Air.get_texture(), BlockType::Grass.get_texture());
}

#[test]
fn texture_in_float_units_matches_padding() {
    // One atlas unit is 1/2048: the first corner sits half a texel of a
    // 1024 texel atlas inside the tile.
    let uv = BlockType::Stone.get_texture();
    let u_min = uv[0].u as f32 / 2048.0;
    assert!((u_min - (1.0 / 16.0 + 0.5 / 1024.0)).abs() < 1e-6);
}

#[test]
fn chance_hit_thresholds() {
    assert!(BlockType::chance_hit(BlockType::Coal, 0));
    assert!(BlockType::chance_hit(BlockType::Coal, 4));
    assert!(!BlockType::chance_hit(BlockType::Coal, 5));
    assert!(!BlockType::chance_hit(BlockType::Coal, 99));
    assert!(!BlockType::chance_hit(BlockType::Stone, 0));
    assert!(!BlockType::chance_hit(BlockType::Air, 0));
}

#[test]
fn get_chance_never_hits_for_types_without_chance() {
    for _ in 0..200 {
        assert!(!BlockType::get_chance(BlockType::Stone));
        assert!(!BlockType::get_chance(BlockType::Grass));
    }
}

#[test]
fn get_chance_for_coal_sometimes_hits() {
    let mut hits = 0;
    for _ in 0..5000 {
        if BlockType::get_chance(BlockType::Coal) {
            hits += 1;
        }
    }
    assert!(hits > 0);
    assert!(hits < 1000);
}
