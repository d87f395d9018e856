use titan_voxel_engine::chunk::{Chunk, ChunkPos};
use titan_voxel_engine::greedy::{greedy_quads, Quad};
use titan_voxel_engine::mesher::{combine_meshes, generate_mesh, is_air, push_face, Mesh, Vertex};

#[test]
fn test_push_face() {
    let mut verts = Vec::new();
    let mut inds = Vec::new();
    let mut count = 0;

    let pos = [[0, 0, 1], [0, 1, 1], [1, 1, 1], [1, 0, 1]];

    push_face(&mut verts, &mut inds, &mut count, pos, 1, 1, 0);

    assert_eq!(verts.len(), 4);
    assert_eq!(inds.len(), 6);
    assert_eq!(count, 4);

    // Verify UVs are correct for [BL, TL, TR, BR] with CCW indices
    assert_eq!(verts[0].uv, [0, 1]);
    assert_eq!(verts[1].uv, [0, 0]);
    assert_eq!(verts[2].uv, [1, 0]);
    assert_eq!(verts[3].uv, [1, 1]);

    // Verify indices for CCW triangles
    assert_eq!(inds, vec![0, 1, 2, 2, 3, 0]);
}

#[test]
fn push_face_numbers_from_count() {
    let mut verts = Vec::new();
    let mut inds = Vec::new();
    let mut count = 8;
    push_face(&mut verts, &mut inds, &mut count, [[1, 2, 3], [4, 5, 6], [7, 8, 9], [10, 11, 12]], 3, 5, 2);
    assert_eq!(count, 12);
    assert_eq!(inds, vec![8, 9, 10, 10, 11, 8]);
    assert_eq!(verts[0], Vertex { pos: [1, 2, 3], uv: [0, 5], layer: 2 });
    assert_eq!(verts[3], Vertex { pos: [10, 11, 12], uv: [3, 5], layer: 2 });
}

#[test]
fn is_air_outside_and_inside() {
    let mut chunk = Chunk::new(ChunkPos::new(0, 0, 0));
    chunk.set_voxel(0, 0, 0, 1);
    assert!(!is_air(&chunk, 0, 0, 0));
    assert!(is_air(&chunk, 1, 0, 0));
    assert!(is_air(&chunk, -1, 0, 0));
    assert!(is_air(&chunk, 0, 256, 0));
    assert!(is_air(&chunk, 0, 0, 32));
}

#[test]
fn empty_chunk_has_empty_mesh() {
    let chunk = Chunk::new(ChunkPos::new(0, 0, 0));
    let mesh = generate_mesh(&chunk);
    assert!(mesh.vertices.is_empty());
    assert!(mesh.indices.is_empty());
}

fn v(pos: [i64; 3], uv: [u32; 2], layer: u32) -> Vertex {
    Vertex { pos, uv, layer }
}

#[test]
fn single_voxel_has_six_faces() {
    let mut chunk = Chunk::new(ChunkPos::new(0, 0, 0));
    chunk.set_voxel(0, 0, 0, 1);
    let mesh = generate_mesh(&chunk);
    assert_eq!(mesh.vertices.len(), 24);
    assert_eq!(mesh.indices.len(), 36);
    let expected = [
        // +Y
        [[0, 1, 1], [0, 1, 0], [1, 1, 0], [1, 1, 1]],
        // -Y
        [[0, 0, 0], [0, 0, 1], [1, 0, 1], [1, 0, 0]],
        // +X
        [[1, 0, 1], [1, 1, 1], [1, 1, 0], [1, 0, 0]],
        // -X
        [[0, 0, 0], [0, 1, 0], [0, 1, 1], [0, 0, 1]],
        // +Z
        [[1, 0, 1], [1, 1, 1], [0, 1, 1], [0, 0, 1]],
        // -Z
        [[0, 0, 0], [0, 1, 0], [1, 1, 0], [1, 0, 0]],
    ];
    for (f, corners) in expected.iter().enumerate() {
        assert_eq!(mesh.vertices[4 * f], v(corners[0], [0, 1], 0));
        assert_eq!(mesh.vertices[4 * f + 1], v(corners[1], [0, 0], 0));
        assert_eq!(mesh.vertices[4 * f + 2], v(corners[2], [1, 0], 0));
        assert_eq!(mesh.vertices[4 * f + 3], v(corners[3], [1, 1], 0));
        let b = 4 * f as u32;
        assert_eq!(&mesh.indices[6 * f..6 * f + 6], &[b, b + 1, b + 2, b + 2, b + 3, b]);
    }
}

#[test]
fn chunk_position_offsets_vertices() {
    let mut chunk = Chunk::new(ChunkPos::new(1, -1, 2));
    chunk.set_voxel(0, 0, 0, 3);
    let mesh = generate_mesh(&chunk);
    assert_eq!(mesh.vertices.len(), 24);
    // Top face of the voxel at (32, -256, 64), texture layer 2.
    assert_eq!(mesh.vertices[0], v([32, -255, 65], [0, 1], 2));
    assert_eq!(mesh.vertices[2], v([33, -255, 64], [1, 0], 2));
}

#[test]
fn flat_floor_merges_into_one_quad_per_side() {
    let mut chunk = Chunk::new(ChunkPos::new(0, 0, 0));
    for x in 0..32 {
        for z in 0..32 {
            chunk.set_voxel(x, 0, z, 1);
        }
    }
    let mesh = generate_mesh(&chunk);
    assert_eq!(mesh.vertices.len(), 24);
    assert_eq!(mesh.indices.len(), 36);
    // The top is one 32 x 32 quad whose texture repeats 32 times each way.
    assert_eq!(mesh.vertices[0], v([0, 1, 32], [0, 32], 0));
    assert_eq!(mesh.vertices[1], v([0, 1, 0], [0, 0], 0));
    assert_eq!(mesh.vertices[2], v([32, 1, 0], [32, 0], 0));
    assert_eq!(mesh.vertices[3], v([32, 1, 32], [32, 32], 0));
}

#[test]
fn different_ids_are_not_merged_and_hidden_faces_are_skipped() {
    let mut chunk = Chunk::new(ChunkPos::new(0, 0, 0));
    chunk.set_voxel(0, 0, 0, 1);
    chunk.set_voxel(1, 0, 0, 2);
    let mesh = generate_mesh(&chunk);
    // Top 2, bottom 2, +X 1, -X 1, +Z 2, -Z 2.
    assert_eq!(mesh.vertices.len(), 40);
    assert_eq!(mesh.indices.len(), 60);
    assert_eq!(mesh.vertices[0].layer, 0);
    assert_eq!(mesh.vertices[4].layer, 1);
    for &i in &mesh.indices {
        assert!((i as usize) < mesh.vertices.len());
    }
}

#[test]
fn tall_column_merges_vertically() {
    let mut chunk = Chunk::new(ChunkPos::new(0, 0, 0));
    chunk.fill_column(5, 6, 10);
    let mesh = generate_mesh(&chunk);
    // Top (grass) and bottom (dirt) faces, and on each of the four sides one dirt quad
    // nine voxels high and one grass quad.
    assert_eq!(mesh.vertices.len(), 4 * (2 + 4 * 2));
}

#[test]
fn greedy_quads_merges_rectangles() {
    // Two rows of 32 cells: a 2 x 2 block of id 5 at columns 1..3, and a lone 7.
    let mut mask = vec![0u16; 64];
    mask[1] = 5;
    mask[2] = 5;
    mask[33] = 5;
    mask[34] = 5;
    mask[10] = 7;
    let qs = greedy_quads(mask, 2);
    assert_eq!(
        qs,
        vec![
            Quad { u: 1, v: 0, width: 2, height: 2, id: 5 },
            Quad { u: 10, v: 0, width: 1, height: 1, id: 7 },
        ]
    );
}

#[test]
fn greedy_quads_takes_widest_run_first() {
    // Row 0: columns 0..4 hold 1; row 1: columns 0..2 hold 1.
    let mut mask = vec![0u16; 64];
    for c in 0..4 {
        mask[c] = 1;
    }
    mask[32] = 1;
    mask[33] = 1;
    let qs = greedy_quads(mask, 2);
    assert_eq!(
        qs,
        vec![
            Quad { u: 0, v: 0, width: 4, height: 1, id: 1 },
            Quad { u: 0, v: 1, width: 2, height: 1, id: 1 },
        ]
    );
}

#[test]
fn combine_meshes_renumbers_indices() {
    let a = Mesh {
        vertices: vec![v([0, 0, 0], [0, 0], 0); 4],
        indices: vec![0, 1, 2, 2, 3, 0],
    };
    let b = Mesh {
        vertices: vec![v([1, 1, 1], [1, 1], 1); 4],
        indices: vec![0, 1, 2, 2, 3, 0],
    };
    let m = combine_meshes(vec![a, b]);
    assert_eq!(m.vertices.len(), 8);
    assert_eq!(m.vertices[4], v([1, 1, 1], [1, 1], 1));
    assert_eq!(m.indices, vec![0, 1, 2, 2, 3, 0, 4, 5, 6, 6, 7, 4]);
}

#[test]
fn combine_no_meshes_is_empty() {
    let m = combine_meshes(Vec::new());
    assert!(m.vertices.is_empty());
    assert!(m.indices.is_empty());
}
