use titan_voxel_engine::chunk::{grid_positions, Chunk, ChunkPos, CHUNK_HEIGHT, CHUNK_SIZE};
use titan_voxel_engine::world::World;

#[test]
fn test_chunk_get_set_voxel() {
    let mut chunk = Chunk::new(ChunkPos::new(0, 0, 0));
    assert_eq!(chunk.get_voxel(0, 0, 0), 0);
    chunk.set_voxel(0, 0, 0, 1);
    assert_eq!(chunk.get_voxel(0, 0, 0), 1);
    chunk.set_voxel(31, 255, 31, 2);
    assert_eq!(chunk.get_voxel(31, 255, 31), 2);
}

#[test]
fn test_chunk_out_of_bounds() {
    let mut chunk = Chunk::new(ChunkPos::new(0, 0, 0));
    assert_eq!(chunk.get_voxel(32, 0, 0), 0);
    assert_eq!(chunk.get_voxel(0, 256, 0), 0);
    assert_eq!(chunk.get_voxel(0, 0, 32), 0);

    // Out of bounds sets should not panic
    chunk.set_voxel(32, 0, 0, 1);
    chunk.set_voxel(0, 256, 0, 1);
    chunk.set_voxel(0, 0, 32, 1);
}

#[test]
fn set_voxel_touches_only_its_cell() {
    let mut chunk = Chunk::new(ChunkPos::new(0, 0, 0));
    chunk.set_voxel(1, 2, 3, 7);
    assert_eq!(chunk.get_voxel(1, 2, 3), 7);
    assert_eq!(chunk.get_voxel(2, 1, 3), 0);
    assert_eq!(chunk.get_voxel(3, 2, 1), 0);
    assert_eq!(chunk.get_voxel(1, 3, 2), 0);
    // Neighbours along each axis in the flat layout stay air.
    assert_eq!(chunk.get_voxel(0, 2, 3), 0);
    assert_eq!(chunk.get_voxel(1, 2, 4), 0);
    assert_eq!(chunk.get_voxel(1, 1, 3), 0);
    chunk.set_voxel(1, 2, 3, 9);
    assert_eq!(chunk.get_voxel(1, 2, 3), 9);
}

#[test]
fn out_of_bounds_set_leaves_chunk_unchanged() {
    let mut chunk = Chunk::new(ChunkPos::new(0, 0, 0));
    chunk.set_voxel(0, 0, 0, 4);
    chunk.set_voxel(CHUNK_SIZE, 0, 0, 5);
    chunk.set_voxel(0, CHUNK_HEIGHT, 0, 5);
    assert_eq!(chunk.get_voxel(0, 0, 0), 4);
    assert_eq!(chunk.get_voxel(CHUNK_SIZE, 0, 0), 0);
    assert_eq!(chunk.get_voxel(0, 0, 1), 0);
}

#[test]
fn new_chunk_is_air_and_keeps_position() {
    let chunk = Chunk::new(ChunkPos::new(2, -1, 5));
    assert_eq!(chunk.position(), ChunkPos::new(2, -1, 5));
    for y in [0usize, 100, 255] {
        for x in [0usize, 17, 31] {
            assert_eq!(chunk.get_voxel(x, y, 31 - x), 0);
        }
    }
}

#[test]
fn fill_column_puts_grass_on_dirt() {
    let mut chunk = Chunk::new(ChunkPos::new(0, 0, 0));
    chunk.fill_column(3, 4, 5);
    assert_eq!(chunk.get_voxel(3, 4, 4), 2);
    for y in 0..4 {
        assert_eq!(chunk.get_voxel(3, y, 4), 1);
    }
    assert_eq!(chunk.get_voxel(3, 5, 4), 0);
    assert_eq!(chunk.get_voxel(4, 0, 4), 0);
    assert_eq!(chunk.get_voxel(3, 0, 3), 0);
}

#[test]
fn fill_column_of_zero_height_changes_nothing() {
    let mut chunk = Chunk::new(ChunkPos::new(0, 0, 0));
    chunk.fill_column(0, 0, 0);
    assert_eq!(chunk.get_voxel(0, 0, 0), 0);
}

#[test]
fn fill_column_taller_than_chunk_is_cut() {
    let mut chunk = Chunk::new(ChunkPos::new(0, 0, 0));
    chunk.fill_column(0, 0, 300);
    // The grass would sit at y = 299, above the chunk, so the top cell is dirt.
    assert_eq!(chunk.get_voxel(0, 255, 0), 1);
    assert_eq!(chunk.get_voxel(0, 0, 0), 1);
}

#[test]
fn grid_positions_are_x_major() {
    let ps = grid_positions(3);
    assert_eq!(ps.len(), 9);
    assert_eq!(ps[0], ChunkPos::new(0, 0, 0));
    assert_eq!(ps[1], ChunkPos::new(0, 0, 1));
    assert_eq!(ps[3], ChunkPos::new(1, 0, 0));
    assert_eq!(ps[8], ChunkPos::new(2, 0, 2));
    assert!(grid_positions(0).is_empty());
    assert!(grid_positions(-2).is_empty());
}

#[test]
fn new_world_is_empty() {
    let w = World::new();
    assert!(w.chunks.is_empty());
}
