use sgr_cubes::wctx::block::{make_cube_shape, make_slope_shape, BlockRegistry, BlockShapeRegistry};
use sgr_cubes::wctx::chunk::{
    BlockInstance, Chunk, ChunkDrawCache, ChunkDrawContext, ChunkManager, MeshError, CHUNK_SIZE,
    WORLD_CHUNKS,
};

const AIR: BlockInstance = BlockInstance { blockdef: 0, exparam: 0, light: 0 };

/// Shapes: 0 cube, 1 slope. Blocks: 1 stone (cube), 2 glass (cube,
/// transparent), 3 ramp (slope).
fn registries() -> (BlockRegistry, BlockShapeRegistry) {
    let mut shapes = BlockShapeRegistry::new();
    let cube = shapes.add(make_cube_shape());
    let slope = shapes.add(make_slope_shape());
    let mut reg = BlockRegistry::new();
    reg.add(cube, "Stone".to_string(), vec![1], false);
    reg.add(cube, "Glass".to_string(), vec![2], true);
    reg.add(slope, "Ramp".to_string(), vec![3], false);
    (reg, shapes)
}

fn stone() -> BlockInstance {
    BlockInstance { blockdef: 1, exparam: 0, light: 255 }
}

fn cache_of(m: &ChunkManager, i: usize) -> &ChunkDrawCache {
    &m.data[i].draw_cache
}

#[test]
fn neighbouring_chunks_hide_shared_faces() {
    let (reg, shapes) = registries();
    let mut m = ChunkManager::with_dims(2, (2, 1, 1), AIR);
    *m.get_mut_block((1, 0, 0)) = stone();
    *m.get_mut_block((2, 0, 0)) = stone();
    assert_eq!(m.update_dirty_chunks(&reg, &shapes), Ok(()));
    let c0 = cache_of(&m, 0);
    let c1 = cache_of(&m, 1);
    assert_eq!(c0.vertices.len(), 20);
    assert_eq!(c0.indices.len(), 30);
    assert_eq!(c1.vertices.len(), 20);
    assert_eq!(c1.indices.len(), 30);
    // The shared plane is world x = 2 (numerator 4 over 2). The +X face of the
    // first block and the -X face of the second are gone: only the corners of
    // the other faces touch the plane.
    assert_eq!(c0.vertices.iter().filter(|v| v.pos.x == 4).count(), 8);
    assert_eq!(c1.vertices.iter().filter(|v| v.pos.x == 4).count(), 8);
    assert!(!m.data[0].dirty && !m.data[1].dirty);
}

#[test]
fn lone_block_in_other_chunk_keeps_faces() {
    let (reg, shapes) = registries();
    let mut m = ChunkManager::with_dims(2, (2, 1, 1), AIR);
    *m.get_mut_block((1, 0, 0)) = stone();
    assert_eq!(m.update_dirty_chunks(&reg, &shapes), Ok(()));
    assert_eq!(cache_of(&m, 0).vertices.len(), 24);
    assert!(cache_of(&m, 1).vertices.is_empty());
    assert_eq!(m.get_render_chunks().len(), 1);
}

#[test]
fn air_contributes_no_geometry() {
    let (reg, shapes) = registries();
    let mut m = ChunkManager::with_dims(2, (1, 1, 1), AIR);
    *m.get_mut_block((0, 0, 0)) = stone();
    assert_eq!(m.update_dirty_chunks(&reg, &shapes), Ok(()));
    assert_eq!(cache_of(&m, 0).vertices.len(), 24);
    *m.get_mut_block((0, 0, 0)) = AIR;
    assert!(m.data[0].dirty);
    assert_eq!(m.update_dirty_chunks(&reg, &shapes), Ok(()));
    assert!(cache_of(&m, 0).vertices.is_empty());
    assert!(cache_of(&m, 0).indices.is_empty());
    assert!(m.get_render_chunks().is_empty());
}

#[test]
fn lone_slope_renders_all_five_faces() {
    let (reg, shapes) = registries();
    let mut m = ChunkManager::with_dims(4, (1, 1, 1), AIR);
    *m.get_mut_block((1, 1, 1)) = BlockInstance { blockdef: 3, exparam: 0, light: 255 };
    assert_eq!(m.update_dirty_chunks(&reg, &shapes), Ok(()));
    let c = cache_of(&m, 0);
    assert_eq!(c.vertices.len(), 18);
    assert_eq!(c.indices.len(), 24);
    assert!(c.vertices.iter().all(|v| v.array_index == 3));
}

#[test]
fn transparent_neighbour_does_not_hide() {
    let (reg, shapes) = registries();
    let mut m = ChunkManager::with_dims(2, (1, 1, 1), AIR);
    *m.get_mut_block((0, 0, 0)) = stone();
    *m.get_mut_block((1, 0, 0)) = BlockInstance { blockdef: 2, exparam: 0, light: 255 };
    assert_eq!(m.update_dirty_chunks(&reg, &shapes), Ok(()));
    // Stone keeps six faces; glass loses the face against the stone.
    assert_eq!(cache_of(&m, 0).vertices.len(), 4 * 11);
}

#[test]
fn slope_seals_only_its_full_sides() {
    let (reg, shapes) = registries();
    let mut m = ChunkManager::with_dims(4, (1, 1, 1), AIR);
    // A ramp at (1,1,1) with its full -Z side against a stone at (1,1,0),
    // and a stone at (2,1,1) against its +X triangle.
    *m.get_mut_block((1, 1, 1)) = BlockInstance { blockdef: 3, exparam: 0, light: 255 };
    *m.get_mut_block((1, 1, 0)) = stone();
    *m.get_mut_block((2, 1, 1)) = stone();
    assert_eq!(m.update_dirty_chunks(&reg, &shapes), Ok(()));
    // Ramp: -Z face and +X triangle hidden: 4 + 3 + 4 = 11 vertices.
    // Stone at (1,1,0): its +Z face is hidden by the ramp's sealed -Z side: 20.
    // Stone at (2,1,1): its -X face stays, the ramp does not seal +X: 24.
    assert_eq!(cache_of(&m, 0).vertices.len(), 11 + 20 + 24);
}

#[test]
fn edge_edit_marks_lower_neighbour() {
    let (reg, shapes) = registries();
    let mut m = ChunkManager::with_dims(4, (2, 1, 1), AIR);
    assert_eq!(m.update_dirty_chunks(&reg, &shapes), Ok(()));
    assert!(!m.data[0].dirty && !m.data[1].dirty);
    *m.get_mut_block((5, 1, 1)) = stone();
    assert!(m.data[1].dirty);
    assert!(!m.data[0].dirty);
    assert_eq!(m.update_dirty_chunks(&reg, &shapes), Ok(()));
    *m.get_mut_block((4, 1, 1)) = stone();
    assert!(m.data[1].dirty);
    assert!(m.data[0].dirty);
}

#[test]
fn edge_edit_marks_upper_neighbour_only_where_it_exists() {
    let (reg, shapes) = registries();
    let mut m = ChunkManager::with_dims(2, (1, 2, 2), AIR);
    assert_eq!(m.update_dirty_chunks(&reg, &shapes), Ok(()));
    // Cell (1, 1, 1): top of chunk (0, 0, 0) in y and z, side of the world in x.
    *m.get_mut_block((1, 1, 1)) = stone();
    assert!(m.data[0].dirty);
    assert!(m.data[1].dirty);
    assert!(m.data[2].dirty);
    assert!(!m.data[3].dirty);
}

#[test]
fn rebuild_reproduces_mesh() {
    let (reg, shapes) = registries();
    let mut m = ChunkManager::with_dims(2, (2, 1, 1), AIR);
    *m.get_mut_block((1, 0, 0)) = stone();
    *m.get_mut_block((2, 1, 1)) = BlockInstance { blockdef: 3, exparam: 5, light: 255 };
    assert_eq!(m.update_dirty_chunks(&reg, &shapes), Ok(()));
    let before: Vec<ChunkDrawCache> = (0..2).map(|i| cache_of(&m, i).duplicate()).collect();
    // Nothing dirty: a second pass changes nothing.
    assert_eq!(m.update_dirty_chunks(&reg, &shapes), Ok(()));
    for i in 0..2 {
        assert_eq!(cache_of(&m, i).vertices, before[i].vertices);
        assert_eq!(cache_of(&m, i).indices, before[i].indices);
    }
    // Marking dirty without a change rebuilds the same mesh.
    let same = *m.get_block((1, 0, 0));
    *m.get_mut_block((1, 0, 0)) = same;
    assert!(m.data[0].dirty && m.data[1].dirty);
    assert_eq!(m.update_dirty_chunks(&reg, &shapes), Ok(()));
    for i in 0..2 {
        assert_eq!(cache_of(&m, i).vertices, before[i].vertices);
        assert_eq!(cache_of(&m, i).indices, before[i].indices);
    }
}

#[test]
fn unknown_block_fails_without_change() {
    let (reg, shapes) = registries();
    let mut m = ChunkManager::with_dims(2, (2, 1, 1), AIR);
    *m.get_mut_block((0, 0, 0)) = BlockInstance { blockdef: 9, exparam: 0, light: 0 };
    assert_eq!(m.update_dirty_chunks(&reg, &shapes), Err(MeshError::InvalidCell));
    assert!(m.data[0].dirty && m.data[1].dirty);
    assert!(cache_of(&m, 0).vertices.is_empty());
}

#[test]
fn bad_orientation_fails() {
    let (reg, shapes) = registries();
    let mut m = ChunkManager::with_dims(2, (1, 1, 1), AIR);
    *m.get_mut_block((0, 0, 0)) = BlockInstance { blockdef: 3, exparam: 12, light: 0 };
    assert_eq!(m.update_dirty_chunks(&reg, &shapes), Err(MeshError::InvalidCell));
}

#[test]
fn unknown_shape_fails() {
    let (mut reg, shapes) = registries();
    reg.add(7, "Ghost".to_string(), vec![0], false);
    let mut m = ChunkManager::with_dims(2, (1, 1, 1), AIR);
    *m.get_mut_block((0, 0, 0)) = BlockInstance { blockdef: 4, exparam: 0, light: 0 };
    assert_eq!(m.update_dirty_chunks(&reg, &shapes), Err(MeshError::InvalidCell));
}

#[test]
fn chunk_with_context_layers() {
    let (reg, shapes) = registries();
    let mut c = Chunk::with_size(2, AIR);
    assert!(c.dirty);
    assert_eq!(c.get(1, 1, 1), AIR);
    // Put a stone in the chunk and an opaque layer on its +X side.
    let mut world = ChunkManager::with_dims(2, (1, 1, 1), AIR);
    *world.get_mut_block((1, 0, 0)) = stone();
    let mut one = world.data.remove(0);
    let mut cdc = ChunkDrawContext::new();
    cdc.plus_x = Some(vec![stone(); 4]);
    assert_eq!(one.update_draw_cache((0, 0, 0), &reg, &shapes, cdc), Ok(()));
    assert_eq!(one.draw_cache.vertices.len(), 20);
    assert!(!one.dirty);
    let mut bad = ChunkDrawContext::new();
    bad.minus_y = Some(vec![AIR; 3]);
    c.dirty = true;
    assert_eq!(c.update_draw_cache((0, 0, 0), &reg, &shapes, bad), Err(MeshError::BadBoundary));
    assert!(c.dirty);
    let mut invalid = ChunkDrawContext::new();
    invalid.plus_z = Some(vec![BlockInstance { blockdef: 40, exparam: 0, light: 0 }; 4]);
    assert_eq!(c.update_draw_cache((0, 0, 0), &reg, &shapes, invalid), Err(MeshError::InvalidCell));
}

#[test]
fn create_bdc_reads_neighbours() {
    let (reg, shapes) = registries();
    let mut world = ChunkManager::with_dims(2, (1, 1, 1), AIR);
    *world.get_mut_block((0, 0, 0)) = stone();
    *world.get_mut_block((0, 0, 1)) = stone();
    let c = world.data.remove(0);
    let mut cdc = ChunkDrawContext::new();
    cdc.minus_x = Some(vec![stone(); 4]);
    let bdc = c.create_bdc((0, 0, 0), &reg, &shapes, &cdc);
    // +Z neighbour is stone, -X layer is stone; the rest air or open.
    assert_eq!(bdc.obstructions, [true, false, false, false, false, true]);
}

#[test]
fn edits_read_back() {
    let mut m = ChunkManager::with_dims(2, (2, 2, 2), AIR);
    *m.get_mut_block((3, 2, 1)) = BlockInstance { blockdef: 5, exparam: 6, light: 7 };
    assert_eq!(*m.get_block((3, 2, 1)), BlockInstance { blockdef: 5, exparam: 6, light: 7 });
    assert_eq!(*m.get_block((2, 2, 1)), AIR);
    assert_eq!(*m.get_block((1, 0, 1)), AIR);
}

#[test]
fn starting_world_layout() {
    let m = ChunkManager::new();
    assert_eq!(m.data.len(), WORLD_CHUNKS * WORLD_CHUNKS * WORLD_CHUNKS);
    assert_eq!(m.chunk_size, CHUNK_SIZE);
    assert_eq!(m.get_block((0, 0, 0)).blockdef, 1);
    assert_eq!(m.get_block((100, 31, 5)).blockdef, 1);
    assert_eq!(m.get_block((100, 32, 5)).blockdef, 0);
    assert_eq!(m.get_block((127, 127, 127)).light, 255);
    assert!(m.data.iter().all(|c| c.dirty));
}

#[test]
fn new_chunks_are_dirty_and_empty() {
    let c = Chunk::new();
    assert!(c.dirty);
    assert_eq!(c.size, CHUNK_SIZE);
    assert_eq!(c.get(15, 15, 15), BlockInstance { blockdef: 0, exparam: 0, light: 255 });
    assert!(c.draw_cache.is_empty());
    let d = Chunk::from_blockinstance(stone());
    assert_eq!(d.get(3, 4, 5), stone());
    let e = ChunkDrawCache::default();
    assert!(e.is_empty());
}

#[test]
fn oversized_mesh_is_refused() {
    let (reg, shapes) = registries();
    let ramp = BlockInstance { blockdef: 3, exparam: 0, light: 255 };
    // 16³ lone-standing slopes: no slope seals the sides its neighbours'
    // faces point at, so every face stays: 4096 * 18 vertices.
    let mut m = ChunkManager::with_dims(16, (2, 1, 1), AIR);
    for x in 0..16 {
        for y in 0..16 {
            for z in 0..16 {
                *m.get_mut_block((x, y, z)) = ramp;
            }
        }
    }
    *m.get_mut_block((20, 0, 0)) = stone();
    assert_eq!(m.update_dirty_chunks(&reg, &shapes), Err(MeshError::TooManyVertices));
    // The oversized chunk stays stale and empty; the other one is rebuilt.
    assert!(m.data[0].dirty);
    assert!(cache_of(&m, 0).vertices.is_empty());
    assert!(!m.data[1].dirty);
    assert_eq!(cache_of(&m, 1).vertices.len(), 24);
}

#[test]
fn oversized_chunk_rebuild_changes_nothing() {
    let (reg, shapes) = registries();
    let ramp = BlockInstance { blockdef: 3, exparam: 0, light: 255 };
    let mut c = Chunk::with_size(16, ramp);
    assert_eq!(c.update_draw_cache((0, 0, 0), &reg, &shapes, ChunkDrawContext::new()), Err(MeshError::TooManyVertices));
    assert!(c.dirty);
    assert!(c.draw_cache.vertices.is_empty());
    let mut small = Chunk::with_size(15, ramp);
    assert_eq!(small.update_draw_cache((0, 0, 0), &reg, &shapes, ChunkDrawContext::new()), Ok(()));
    assert_eq!(small.draw_cache.vertices.len(), 15 * 15 * 15 * 18);
    assert!(small.draw_cache.indices.iter().all(|&i| (i as usize) < small.draw_cache.vertices.len()));
}
