use voxel_terrain::block::{Block, BlockType};
use voxel_terrain::chunk::{Chunk, CHUNK_SIZE_XY};
use voxel_terrain::coord::Int3;
use voxel_terrain::world::{
    destroy_block, edit_block, get_points, load_chunk, load_chunks, queue_chunks, unload_chunks,
    update_chunks, ChunkEntities, ChunkQueue, PlayerChunk, WorldChunks,
};

fn chunk_with(solid: &[(usize, usize, usize)]) -> Chunk {
    let mut c = Chunk::new();
    for &(x, y, z) in solid {
        c.blocks[Chunk::get_index(x, y, z)] = Block { block_type: BlockType::Grass };
    }
    c
}

fn flat_heights() -> Vec<usize> {
    vec![4usize; CHUNK_SIZE_XY]
}

#[test]
fn world_insert_get_and_replace() {
    let mut world = WorldChunks::new();
    let a = Int3::new(1, 0, 2);
    let b = Int3::new(-1, 0, 2);
    assert_eq!(world.len(), 0);
    assert!(!world.contains_key(&a));
    world.insert(a, chunk_with(&[(0, 0, 0)]));
    world.insert(b, Chunk::new());
    assert_eq!(world.len(), 2);
    assert!(world.get(&a).unwrap().blocks[0].is_solid());
    world.insert(a, Chunk::new());
    assert_eq!(world.len(), 2);
    assert!(!world.get(&a).unwrap().blocks[0].is_solid());
    assert!(world.get(&Int3::new(0, 0, 0)).is_none());
}

#[test]
fn queue_is_fifo_and_deduplicated() {
    let mut q = ChunkQueue::new();
    let a = Int3::new(0, 0, 0);
    let b = Int3::new(3, 0, -4);
    q.enqueue(a);
    q.enqueue(b);
    assert_eq!(q.len(), 2);
    assert!(q.contains(&a) && q.contains(&b));
    assert_eq!(q.queue.len(), q.queued_set.len());
    assert_eq!(q.dequeue(), Some(a));
    assert!(!q.contains(&a));
    assert!(q.contains(&b));
    assert_eq!(q.queue.len(), q.queued_set.len());
    assert_eq!(q.dequeue(), Some(b));
    assert_eq!(q.dequeue(), None);
    assert!(q.queued_set.is_empty());
}

#[test]
fn queue_and_set_agree_after_operations() {
    let mut q = ChunkQueue::new();
    let world = WorldChunks::new();
    let mut player = PlayerChunk::new();
    queue_chunks(Int3::new(0, 0, 0), 2, &mut player, &world, &mut q);
    let _ = load_chunks(7, &mut q);
    queue_chunks(Int3::new(1, 0, 0), 2, &mut player, &world, &mut q);
    for c in q.queue.iter() {
        assert!(q.queued_set.contains(&c.key()));
        assert_eq!(q.queue.iter().filter(|d| *d == c).count(), 1);
    }
    assert_eq!(q.queue.len(), q.queued_set.len());
}

#[test]
fn coordinate_keys_are_distinct() {
    let cs = [
        Int3::new(0, 0, 0),
        Int3::new(1, 0, 0),
        Int3::new(0, 1, 0),
        Int3::new(0, 0, 1),
        Int3::new(-1, 0, 0),
        Int3::new(i32::MIN, i32::MAX, 0),
        Int3::new(i32::MAX, i32::MIN, -1),
    ];
    for a in cs.iter() {
        for b in cs.iter() {
            assert_eq!(a.key() == b.key(), a == b);
        }
    }
}

#[test]
fn streaming_scenario_radius_one() {
    let mut world = WorldChunks::new();
    let mut q = ChunkQueue::new();
    let mut player = PlayerChunk::new();
    let origin = Int3::new(0, 0, 0);
    queue_chunks(origin, 1, &mut player, &world, &mut q);
    assert_eq!(q.len(), 9);
    let mut expected = Vec::new();
    for dx in -1..=1 {
        for dz in -1..=1 {
            expected.push(Int3::new(dx, 0, dz));
        }
    }
    let queued: Vec<Int3> = q.queue.iter().copied().collect();
    assert_eq!(queued, expected);
    assert_eq!(player.last_chunk, Some(origin));

    for _tick in 0..9 {
        queue_chunks(origin, 1, &mut player, &world, &mut q);
        let batch = load_chunks(1, &mut q);
        assert_eq!(batch.len(), 1);
        for c in batch {
            assert!(!world.contains_key(&c));
            let _ = load_chunk(c, &flat_heights(), &mut world);
        }
    }
    assert_eq!(q.len(), 0);
    assert_eq!(world.len(), 9);
    for c in expected.iter() {
        assert!(world.contains_key(c));
    }
}

#[test]
fn rescan_only_when_observer_changes_chunk() {
    let world = WorldChunks::new();
    let mut q = ChunkQueue::new();
    let mut player = PlayerChunk::new();
    queue_chunks(Int3::new(0, 0, 0), 1, &mut player, &world, &mut q);
    let _ = load_chunks(9, &mut q);
    queue_chunks(Int3::new(0, 0, 0), 1, &mut player, &world, &mut q);
    assert_eq!(q.len(), 0);
    queue_chunks(Int3::new(1, 0, 0), 1, &mut player, &world, &mut q);
    assert_eq!(q.len(), 9);
}

#[test]
fn resident_chunks_are_not_queued() {
    let mut world = WorldChunks::new();
    world.insert(Int3::new(0, 0, 0), Chunk::new());
    world.insert(Int3::new(1, 0, 1), Chunk::new());
    let mut q = ChunkQueue::new();
    let mut player = PlayerChunk::new();
    queue_chunks(Int3::new(0, 0, 0), 1, &mut player, &world, &mut q);
    assert_eq!(q.len(), 7);
    assert!(!q.contains(&Int3::new(0, 0, 0)));
    assert!(!q.contains(&Int3::new(1, 0, 1)));
}

#[test]
fn load_budget_bounds_each_tick() {
    let world = WorldChunks::new();
    let mut q = ChunkQueue::new();
    let mut player = PlayerChunk::new();
    queue_chunks(Int3::new(0, 0, 0), 1, &mut player, &world, &mut q);
    let first = load_chunks(4, &mut q);
    assert_eq!(first, vec![Int3::new(-1, 0, -1), Int3::new(-1, 0, 0), Int3::new(-1, 0, 1), Int3::new(0, 0, -1)]);
    assert_eq!(q.len(), 5);
    let rest = load_chunks(10, &mut q);
    assert_eq!(rest.len(), 5);
    assert_eq!(load_chunks(3, &mut q).len(), 0);
}

#[test]
fn eviction_scenario_unload_radius_two() {
    let mut world = WorldChunks::new();
    let mut entities = ChunkEntities::new();
    let near = Int3::new(2, 0, -2);
    let far = Int3::new(3, 0, 0);
    world.insert(near, Chunk::new());
    world.insert(far, Chunk::new());
    entities.insert(near, 10, 11);
    entities.insert(far, 20, 21);
    let released = unload_chunks(Int3::new(0, 0, 0), 2, &mut world, &mut entities);
    assert_eq!(released.len(), 1);
    assert_eq!(released[0].chunk_position, far);
    assert_eq!(released[0].mesh_entity, Some(20));
    assert_eq!(released[0].collider_entity, Some(21));
    assert!(!world.contains_key(&far));
    assert!(world.contains_key(&near));
    assert_eq!(entities.mesh_entity(&far), None);
    assert_eq!(entities.collider_entity(&far), None);
    assert_eq!(entities.mesh_entity(&near), Some(10));
    let again = unload_chunks(Int3::new(0, 0, 0), 2, &mut world, &mut entities);
    assert!(again.is_empty());
}

#[test]
fn eviction_uses_both_horizontal_axes() {
    let mut world = WorldChunks::new();
    let mut entities = ChunkEntities::new();
    for c in [Int3::new(0, 0, -3), Int3::new(-3, 0, 0), Int3::new(2, 0, 2), Int3::new(0, 5, 0)] {
        world.insert(c, Chunk::new());
    }
    let released = unload_chunks(Int3::new(0, 0, 0), 2, &mut world, &mut entities);
    assert_eq!(released.len(), 2);
    assert!(released.iter().all(|r| r.mesh_entity.is_none() && r.collider_entity.is_none()));
    assert_eq!(world.len(), 2);
}

#[test]
fn edit_scenario_boundary_block() {
    let mut world = WorldChunks::new();
    let a = Int3::new(0, 0, 0);
    let b = Int3::new(1, 0, 0);
    world.insert(a, chunk_with(&[(15, 2, 2)]));
    world.insert(b, chunk_with(&[(0, 2, 2)]));
    let before = update_chunks(a, &world);
    assert_eq!(before.len(), 1);
    assert_eq!(before[0].chunk_position, b);
    assert_eq!(before[0].mesh.positions.len(), 5 * 4);

    let outcome = destroy_block(Int3::new(15, 2, 2), &mut world).unwrap();
    assert_eq!(outcome.chunk_position, a);
    assert_eq!(outcome.mesh.positions.len(), 0);
    assert_eq!(outcome.points.len(), 0);
    assert_eq!(outcome.neighbor_meshes.len(), 1);
    assert_eq!(outcome.neighbor_meshes[0].chunk_position, b);
    let nb = &outcome.neighbor_meshes[0].mesh;
    assert_eq!(nb.positions.len(), 6 * 4);
    assert!(nb.normals.contains(&Int3::new(-1, 0, 0)));
}

#[test]
fn edit_of_absent_chunk_is_reported() {
    let mut world = WorldChunks::new();
    world.insert(Int3::new(0, 0, 0), chunk_with(&[(1, 1, 1)]));
    assert!(destroy_block(Int3::new(-1, 1, 1), &mut world).is_none());
    assert!(destroy_block(Int3::new(16, 1, 1), &mut world).is_none());
    assert!(world.get(&Int3::new(0, 0, 0)).unwrap().blocks[Chunk::get_index(1, 1, 1)].is_solid());
}

#[test]
fn edit_resolves_negative_positions() {
    let mut world = WorldChunks::new();
    let c = Int3::new(-1, -1, -1);
    world.insert(c, Chunk::new());
    let outcome = edit_block(Int3::new(-1, -16, -1), Block { block_type: BlockType::Stone }, &mut world).unwrap();
    assert_eq!(outcome.chunk_position, c);
    assert_eq!(outcome.points, vec![Int3::new(15, 0, 15)]);
    assert_eq!(outcome.mesh.positions.len(), 24);
}

#[test]
fn points_list_solid_blocks_by_index() {
    let mut world = WorldChunks::new();
    let p = Int3::new(0, 0, 0);
    world.insert(p, chunk_with(&[(3, 1, 0), (0, 0, 2), (15, 15, 15)]));
    let points = get_points(&p, &world);
    assert_eq!(points, vec![Int3::new(0, 0, 2), Int3::new(3, 1, 0), Int3::new(15, 15, 15)]);
}

#[test]
fn loading_patches_resident_neighbours() {
    let mut world = WorldChunks::new();
    let heights = flat_heights();
    let first = load_chunk(Int3::new(0, 0, 0), &heights, &mut world);
    assert!(first.neighbor_meshes.is_empty());
    // A flat column of height 4 exposes its top and its four chunk sides.
    let top_faces = 256;
    let side_faces = 4 * 16 * 5;
    assert_eq!(first.mesh.positions.len(), (top_faces + side_faces + 256) * 4);
    assert_eq!(first.points.len(), 256 * 5);
    let second = load_chunk(Int3::new(0, 0, 1), &heights, &mut world);
    assert_eq!(second.neighbor_meshes.len(), 1);
    let patched = &second.neighbor_meshes[0];
    assert_eq!(patched.chunk_position, Int3::new(0, 0, 0));
    assert_eq!(patched.mesh.positions.len(), (top_faces + 3 * 16 * 5 + 256) * 4);
}

#[test]
fn entity_registry_round_trip() {
    let mut e = ChunkEntities::new();
    let c = Int3::new(4, 0, -9);
    assert_eq!(e.mesh_entity(&c), None);
    e.insert(c, 7, 8);
    assert_eq!(e.mesh_entity(&c), Some(7));
    assert_eq!(e.collider_entity(&c), Some(8));
    assert_eq!(e.mesh_entity(&Int3::new(4, 0, 9)), None);
}
