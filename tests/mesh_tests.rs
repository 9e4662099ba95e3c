use voxel_terrain::block::{AtlasUv, Block, BlockType};
use voxel_terrain::chunk::Chunk;
use voxel_terrain::coord::Int3;
use voxel_terrain::mesh::{
    build_mesh, face_normal, face_vertices, get_visibility, neighbor_chunks, offset_vertices,
    quad_index, BlockFaces,
};
use voxel_terrain::world::WorldChunks;

fn chunk_with(solid: &[(usize, usize, usize)]) -> Chunk {
    let mut c = Chunk::new();
    for &(x, y, z) in solid {
        c.blocks[Chunk::get_index(x, y, z)] = Block { block_type: BlockType::Stone };
    }
    c
}

fn full_chunk() -> Chunk {
    let mut c = Chunk::new();
    for b in c.blocks.iter_mut() {
        b.block_type = BlockType::Dirt;
    }
    c
}

#[test]
fn isolated_block_emits_six_faces() {
    let mut world = WorldChunks::new();
    let p = Int3::new(0, 0, 0);
    world.insert(p, chunk_with(&[(5, 6, 7)]));
    let mesh = build_mesh(p, &world);
    assert_eq!(mesh.positions.len(), 6 * 4);
    assert_eq!(mesh.normals.len(), 6 * 4);
    assert_eq!(mesh.uvs.len(), 6 * 4);
    assert_eq!(mesh.indices.len(), 6 * 6);
    assert_eq!(mesh.indices[0..6], [0, 1, 2, 0, 2, 3]);
    assert_eq!(mesh.indices[30..36], [20, 21, 22, 20, 22, 23]);
    // The front face comes first and sits on the block's +z side.
    assert_eq!(mesh.positions[0], Int3::new(5, 6, 8));
    assert_eq!(mesh.positions[2], Int3::new(6, 7, 8));
    assert_eq!(mesh.normals[0], Int3::new(0, 0, 1));
    assert_eq!(mesh.normals[23], Int3::new(0, -1, 0));
    assert_eq!(mesh.uvs[0], AtlasUv { u: 129, v: 1 });
}

#[test]
fn isolated_block_on_the_chunk_edge_without_neighbours() {
    let mut world = WorldChunks::new();
    let p = Int3::new(-3, 0, 2);
    world.insert(p, chunk_with(&[(0, 0, 15)]));
    let mesh = build_mesh(p, &world);
    assert_eq!(mesh.positions.len(), 24);
    assert_eq!(mesh.indices.len(), 36);
}

#[test]
fn touching_blocks_hide_their_shared_faces() {
    let mut world = WorldChunks::new();
    let p = Int3::new(0, 0, 0);
    world.insert(p, chunk_with(&[(4, 4, 4), (5, 4, 4)]));
    let mesh = build_mesh(p, &world);
    assert_eq!(mesh.positions.len(), 10 * 4);
    assert_eq!(mesh.indices.len(), 10 * 6);
    assert!(mesh.indices.iter().all(|i| (*i as usize) < mesh.positions.len()));
}

#[test]
fn resident_solid_neighbour_hides_boundary_face() {
    let mut world = WorldChunks::new();
    let p = Int3::new(0, 0, 0);
    world.insert(p, chunk_with(&[(15, 3, 3)]));
    let before = build_mesh(p, &world);
    assert_eq!(before.positions.len(), 24);
    world.insert(Int3::new(1, 0, 0), chunk_with(&[(0, 3, 3)]));
    let after = build_mesh(p, &world);
    assert_eq!(after.positions.len(), 20);
    // The right face (+x) is the one that disappeared.
    assert!(after.normals.iter().all(|n| *n != Int3::new(1, 0, 0)));
}

#[test]
fn resident_air_neighbour_keeps_boundary_face() {
    let mut world = WorldChunks::new();
    let p = Int3::new(0, 0, 0);
    world.insert(p, chunk_with(&[(0, 0, 0)]));
    world.insert(Int3::new(-1, 0, 0), Chunk::new());
    world.insert(Int3::new(0, -1, 0), Chunk::new());
    world.insert(Int3::new(0, 0, -1), Chunk::new());
    let mesh = build_mesh(p, &world);
    assert_eq!(mesh.positions.len(), 24);
}

#[test]
fn full_chunk_alone_emits_only_its_shell() {
    let mut world = WorldChunks::new();
    let p = Int3::new(0, 0, 0);
    world.insert(p, full_chunk());
    let mesh = build_mesh(p, &world);
    assert_eq!(mesh.positions.len(), 6 * 256 * 4);
    assert_eq!(mesh.indices.len(), 6 * 256 * 6);
}

#[test]
fn full_chunk_enclosed_by_full_neighbours_emits_nothing() {
    let mut world = WorldChunks::new();
    let p = Int3::new(0, 0, 0);
    world.insert(p, full_chunk());
    for d in [(0, 0, 1), (0, 0, -1), (-1, 0, 0), (1, 0, 0), (0, 1, 0), (0, -1, 0)] {
        world.insert(Int3::new(d.0, d.1, d.2), full_chunk());
    }
    let mesh = build_mesh(p, &world);
    assert_eq!(mesh.positions.len(), 0);
    assert_eq!(mesh.indices.len(), 0);
}

#[test]
fn rebuilding_an_unchanged_chunk_is_identical() {
    let mut world = WorldChunks::new();
    let p = Int3::new(2, 0, -1);
    world.insert(p, chunk_with(&[(1, 1, 1), (1, 2, 1), (9, 9, 0), (15, 15, 15)]));
    world.insert(Int3::new(2, 0, -2), full_chunk());
    let a = build_mesh(p, &world);
    let b = build_mesh(p, &world);
    assert_eq!(a.positions, b.positions);
    assert_eq!(a.normals, b.normals);
    assert_eq!(a.uvs, b.uvs);
    assert_eq!(a.indices, b.indices);
}

#[test]
fn visibility_flags_of_a_buried_block() {
    let mut world = WorldChunks::new();
    let p = Int3::new(0, 0, 0);
    world.insert(p, full_chunk());
    let neighbors = neighbor_chunks(&world, p);
    let chunk = full_chunk();
    let inner = get_visibility((4, 4, 4), &chunk, &neighbors);
    assert!(inner.is_empty());
    let corner = get_visibility((0, 15, 0), &chunk, &neighbors);
    assert!(!corner.is_empty());
    assert!(corner.contains(1));
    assert!(corner.contains(2));
    assert!(corner.contains(4));
    assert!(!corner.contains(0));
    assert!(!corner.contains(3));
    assert!(!corner.contains(5));
}

#[test]
fn block_faces_set_operations() {
    let mut f = BlockFaces::empty();
    assert!(f.is_empty());
    f.insert(3);
    f.insert(5);
    assert!(!f.is_empty());
    assert!(f.contains(3) && f.contains(5));
    assert!(!f.contains(0) && !f.contains(4));
}

#[test]
fn face_tables() {
    assert_eq!(face_normal(0), Int3::new(0, 0, 1));
    assert_eq!(face_normal(2), Int3::new(-1, 0, 0));
    assert_eq!(face_normal(4), Int3::new(0, 1, 0));
    assert_eq!(face_vertices(1)[0], Int3::new(1, 0, 0));
    assert_eq!(face_vertices(3)[3], Int3::new(1, 1, 1));
    let pattern: Vec<u32> = (0..6).map(quad_index).collect();
    assert_eq!(pattern, vec![0, 1, 2, 0, 2, 3]);
}

#[test]
fn offset_vertices_translates_corners() {
    let mut out = vec![Int3::new(9, 9, 9)];
    offset_vertices(&face_vertices(4), Int3::new(2, 3, 4), &mut out);
    assert_eq!(
        out,
        vec![
            Int3::new(9, 9, 9),
            Int3::new(2, 4, 5),
            Int3::new(3, 4, 5),
            Int3::new(3, 4, 4),
            Int3::new(2, 4, 4),
        ]
    );
}

#[test]
fn non_adjacent_chunk_leaves_mesh_unchanged() {
    let mut world = WorldChunks::new();
    let p = Int3::new(0, 0, 0);
    world.insert(p, chunk_with(&[(15, 0, 0), (0, 0, 0)]));
    let before = build_mesh(p, &world);
    world.insert(Int3::new(1, 0, 1), full_chunk());
    world.insert(Int3::new(2, 0, 0), full_chunk());
    let after = build_mesh(p, &world);
    assert_eq!(before.positions, after.positions);
    assert_eq!(before.indices, after.indices);
    world.insert(Int3::new(1, 0, 0), full_chunk());
    let patched = build_mesh(p, &world);
    assert_eq!(patched.positions.len(), before.positions.len() - 4);
}

#[test]
fn neighbor_lookup_per_face() {
    let mut world = WorldChunks::new();
    let p = Int3::new(5, 0, 5);
    world.insert(Int3::new(5, 0, 6), Chunk::new());
    world.insert(Int3::new(4, 0, 5), Chunk::new());
    let n = neighbor_chunks(&world, p);
    assert_eq!(n.len(), 6);
    let present: Vec<bool> = n.iter().map(|c| c.is_some()).collect();
    assert_eq!(present, vec![true, false, true, false, false, false]);
}

#[test]
fn neighbor_lookup_at_coordinate_limit() {
    let mut world = WorldChunks::new();
    let p = Int3::new(i32::MAX, 0, i32::MIN);
    world.insert(p, chunk_with(&[(15, 0, 0)]));
    let n = neighbor_chunks(&world, p);
    assert!(n.iter().all(|c| c.is_none()));
    let mesh = build_mesh(p, &world);
    assert_eq!(mesh.positions.len(), 24);
}

#[test]
fn empty_chunk_has_empty_mesh() {
    let mut world = WorldChunks::new();
    let p = Int3::new(0, 0, 0);
    world.insert(p, Chunk::new());
    let mesh = build_mesh(p, &world);
    assert!(mesh.positions.is_empty() && mesh.normals.is_empty());
    assert!(mesh.uvs.is_empty() && mesh.indices.is_empty());
}
