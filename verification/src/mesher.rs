use vstd::prelude::*;
use crate::chunk::{Chunk, ChunkPos, CHUNK_SIZE, CHUNK_HEIGHT};
use crate::coverage::{draws_face, lemma_mesh_face_geometry};
use crate::greedy::{Quad, greedy, greedy_quads, mask_grid, lemma_greedy_partitions, partitions};

verus! {

/// One corner of a face: its position in world units, its texture coordinates
/// (in voxels, so that the texture repeats once per voxel) and its texture layer.
#[derive(Clone, Copy, Debug, PartialEq, Eq)]
pub struct Vertex {
    pub pos: [i64; 3],
    pub uv: [u32; 2],
    pub layer: u32,
}

/// Triangles over a vertex list: each three consecutive indices name a triangle.
pub struct Mesh {
    pub vertices: Vec<Vertex>,
    pub indices: Vec<u32>,
}

/// Every index of the mesh names one of its vertices.
pub open spec fn mesh_is_valid(vertices: Seq<Vertex>, indices: Seq<u32>) -> bool {
    forall|k: int| 0 <= k < indices.len() ==> (#[trigger] indices[k]) < vertices.len()
}

// ---------------------------------------------------------------------------------------
// Faces of a chunk, direction by direction and slice by slice.
//
// Direction `d`: 0 = +Y, 1 = -Y, 2 = +X, 3 = -X, 4 = +Z, 5 = -Z.  Slice `i` runs along the
// direction's axis; inside a slice, column `u` and row `v` run over the two other axes.
// ---------------------------------------------------------------------------------------

/// Number of slices along direction `d`'s axis.
pub open spec fn axis_len(d: int) -> int {
    if d < 2 {
        CHUNK_HEIGHT as int
    } else {
        CHUNK_SIZE as int
    }
}

/// Number of rows of a slice of direction `d` (there are always `CHUNK_SIZE` columns).
pub open spec fn slice_rows(d: int) -> int {
    if d < 2 {
        CHUNK_SIZE as int
    } else {
        CHUNK_HEIGHT as int
    }
}

/// The voxel at column `u`, row `v` of slice `i` of direction `d`.
pub open spec fn slice_voxel(d: int, i: int, u: int, v: int) -> (int, int, int) {
    if d < 2 {
        (u, i, v)
    } else if d < 4 {
        (i, v, u)
    } else {
        (u, v, i)
    }
}

/// The unit step from a voxel to the neighbour that a face of direction `d` looks at.
pub open spec fn face_normal(d: int) -> (int, int, int) {
    if d == 0 {
        (0, 1, 0)
    } else if d == 1 {
        (0, -1, 0)
    } else if d == 2 {
        (1, 0, 0)
    } else if d == 3 {
        (-1, 0, 0)
    } else if d == 4 {
        (0, 0, 1)
    } else {
        (0, 0, -1)
    }
}

/// The id of the solid voxel at `(x, y, z)` when its face of direction `d` is exposed to
/// air (positions outside the chunk count as air), 0 when no face is drawn there.
pub open spec fn exposed_face(c: Chunk, d: int, x: int, y: int, z: int) -> u16 {
    let n = face_normal(d);
    if c.voxel(x, y, z) != 0 && c.voxel(x + n.0, y + n.1, z + n.2) == 0 {
        c.voxel(x, y, z)
    } else {
        0
    }
}

/// The exposed faces of slice `i` of direction `d`, as rows of columns.
pub open spec fn face_grid(c: Chunk, d: int, i: int) -> Seq<Seq<u16>> {
    Seq::new(
        slice_rows(d) as nat,
        |v: int|
            Seq::new(
                32,
                |u: int|
                    {
                        let p = slice_voxel(d, i, u, v);
                        exposed_face(c, d, p.0, p.1, p.2)
                    },
            ),
    )
}

/// The quads that greedy meshing makes of slice `i` of direction `d`.
pub open spec fn slice_quads(c: Chunk, d: int, i: int) -> Seq<Quad> {
    greedy(face_grid(c, d, i), 32, slice_rows(d), 0, 0)
}

/// The quads of slice `i` of direction `d`, each tagged with its direction and slice.
pub open spec fn slice_faces(c: Chunk, d: int, i: int) -> Seq<(int, int, Quad)> {
    slice_quads(c, d, i).map_values(|q: Quad| (d, i, q))
}

/// All faces of the slices that come before slice `i` of direction `d`
/// (directions in order, slices in order within a direction).
pub open spec fn faces_before(c: Chunk, d: int, i: int) -> Seq<(int, int, Quad)>
    decreases d, i,
{
    if d < 0 || i < 0 {
        Seq::empty()
    } else if i == 0 {
        if d == 0 {
            Seq::empty()
        } else {
            faces_before(c, d - 1, axis_len(d - 1))
        }
    } else {
        faces_before(c, d, i - 1) + slice_faces(c, d, i - 1)
    }
}

/// All faces of the chunk's mesh, in the order in which they are emitted.
pub open spec fn mesh_faces(c: Chunk) -> Seq<(int, int, Quad)> {
    faces_before(c, 6, 0)
}

/// The four corners of a face of direction `d` whose lowest corner is `(x, y, z)`,
/// spanning `w` cells along the slice's columns and `h` along its rows, listed
/// bottom-left, top-left, top-right, bottom-right.
pub open spec fn face_corners(d: int, x: int, y: int, z: int, w: int, h: int) -> [[i64; 3]; 4] {
    if d == 0 {
        [
            [x as i64, (y + 1) as i64, (z + h) as i64],
            [x as i64, (y + 1) as i64, z as i64],
            [(x + w) as i64, (y + 1) as i64, z as i64],
            [(x + w) as i64, (y + 1) as i64, (z + h) as i64],
        ]
    } else if d == 1 {
        [
            [x as i64, y as i64, z as i64],
            [x as i64, y as i64, (z + h) as i64],
            [(x + w) as i64, y as i64, (z + h) as i64],
            [(x + w) as i64, y as i64, z as i64],
        ]
    } else if d == 2 {
        [
            [(x + 1) as i64, y as i64, (z + w) as i64],
            [(x + 1) as i64, (y + h) as i64, (z + w) as i64],
            [(x + 1) as i64, (y + h) as i64, z as i64],
            [(x + 1) as i64, y as i64, z as i64],
        ]
    } else if d == 3 {
        [
            [x as i64, y as i64, z as i64],
            [x as i64, (y + h) as i64, z as i64],
            [x as i64, (y + h) as i64, (z + w) as i64],
            [x as i64, y as i64, (z + w) as i64],
        ]
    } else if d == 4 {
        [
            [(x + w) as i64, y as i64, (z + 1) as i64],
            [(x + w) as i64, (y + h) as i64, (z + 1) as i64],
            [x as i64, (y + h) as i64, (z + 1) as i64],
            [x as i64, y as i64, (z + 1) as i64],
        ]
    } else {
        [
            [x as i64, y as i64, z as i64],
            [x as i64, (y + h) as i64, z as i64],
            [(x + w) as i64, (y + h) as i64, z as i64],
            [(x + w) as i64, y as i64, z as i64],
        ]
    }
}

/// The four vertices of a face with corners `pos` (bottom-left, top-left, top-right,
/// bottom-right), `w` by `h` voxels, textured from `layer`.
pub open spec fn quad_vertices(pos: [[i64; 3]; 4], w: u32, h: u32, layer: u32) -> Seq<Vertex> {
    seq![
        Vertex { pos: pos[0], uv: [0, h], layer },
        Vertex { pos: pos[1], uv: [0, 0], layer },
        Vertex { pos: pos[2], uv: [w, 0], layer },
        Vertex { pos: pos[3], uv: [w, h], layer },
    ]
}

/// The two counter-clockwise triangles of the face whose first vertex is `first`.
pub open spec fn quad_indices(first: int) -> Seq<u32> {
    seq![
        first as u32,
        (first + 1) as u32,
        (first + 2) as u32,
        (first + 2) as u32,
        (first + 3) as u32,
        first as u32,
    ]
}

/// Offset, in world units, of the chunk's corner along X, Y and Z.
pub open spec fn chunk_offset(p: ChunkPos) -> (int, int, int) {
    (p.x * 32, p.y * 256, p.z * 32)
}

/// The chunk's corner lies within the range of `i32` on every axis.
pub open spec fn offset_in_range(p: ChunkPos) -> bool {
    let o = chunk_offset(p);
    &&& i32::MIN <= o.0 <= i32::MAX
    &&& i32::MIN <= o.1 <= i32::MAX
    &&& i32::MIN <= o.2 <= i32::MAX
}

/// The four vertices of face `f` of a chunk whose corner is at `o`.
pub open spec fn face_vertices(f: (int, int, Quad), o: (int, int, int)) -> Seq<Vertex> {
    let (d, i, q) = f;
    let p = slice_voxel(d, i, q.u as int, q.v as int);
    quad_vertices(
        face_corners(d, p.0 + o.0, p.1 + o.1, p.2 + o.2, q.width as int, q.height as int),
        q.width as u32,
        q.height as u32,
        (q.id - 1) as u32,
    )
}

/// The vertices of a list of faces, four per face, in order.
pub open spec fn faces_vertices(fs: Seq<(int, int, Quad)>, o: (int, int, int)) -> Seq<Vertex>
    decreases fs.len(),
{
    if fs.len() == 0 {
        Seq::empty()
    } else {
        faces_vertices(fs.drop_last(), o) + face_vertices(fs.last(), o)
    }
}

/// The indices of `n` faces, six per face, in order.
pub open spec fn faces_indices(n: int) -> Seq<u32>
    decreases n,
{
    if n <= 0 {
        Seq::empty()
    } else {
        faces_indices(n - 1) + quad_indices(4 * (n - 1))
    }
}

/// Whether `(x, y, z)`, which may lie outside the chunk, holds air; everything outside
/// the chunk counts as air, so that faces on the chunk's border are drawn.
pub fn is_air(chunk: &Chunk, x: i32, y: i32, z: i32) -> (b: bool)
    requires
        chunk.wf(),
    ensures
        b == (chunk.voxel(x as int, y as int, z as int) == 0),
{
    if x < 0 || y < 0 || z < 0 || x >= CHUNK_SIZE as i32 || y >= CHUNK_HEIGHT as i32 || z
        >= CHUNK_SIZE as i32 {
        return true;
    }
    chunk.get_voxel(x as usize, y as usize, z as usize) == 0
}

/// Appends the four vertices of a face with corners `pos` (bottom-left, top-left,
/// top-right, bottom-right) and its two triangles, numbering the vertices from `count`.
pub fn push_face(
    verts: &mut Vec<Vertex>,
    inds: &mut Vec<u32>,
    count: &mut u32,
    pos: [[i64; 3]; 4],
    width: u32,
    height: u32,
    layer: u32,
)
    requires
        *old(count) + 4 <= u32::MAX,
    ensures
        final(verts)@ == old(verts)@ + quad_vertices(pos, width, height, layer),
        final(inds)@ == old(inds)@ + quad_indices(*old(count) as int),
        *final(count) == *old(count) + 4,
{
    verts.push(Vertex { pos: pos[0], uv: [0, height], layer });
    verts.push(Vertex { pos: pos[1], uv: [0, 0], layer });
    verts.push(Vertex { pos: pos[2], uv: [width, 0], layer });
    verts.push(Vertex { pos: pos[3], uv: [width, height], layer });
    let c = *count;
    inds.push(c);
    inds.push(c + 1);
    inds.push(c + 2);
    inds.push(c + 2);
    inds.push(c + 3);
    inds.push(c);
    *count = c + 4;
    assert(verts@ =~= old(verts)@ + quad_vertices(pos, width, height, layer));
    assert(inds@ =~= old(inds)@ + quad_indices(c as int));
}


/// The exposed faces of slice `i` of direction `d`, stored flat, 32 cells per row.
fn face_mask(chunk: &Chunk, d: usize, i: usize, rows: usize) -> (mask: Vec<u16>)
    requires
        chunk.wf(),
        d < 6,
        i < axis_len(d as int),
        rows == slice_rows(d as int),
    ensures
        mask@.len() == 32 * rows,
        mask_grid(mask@, rows as int) == face_grid(*chunk, d as int, i as int),
{
    let ghost g = face_grid(*chunk, d as int, i as int);
    let mut mask: Vec<u16> = vec![0u16; CHUNK_SIZE * rows];
    let mut v: usize = 0;
    while v < rows
        invariant
            chunk.wf(),
            d < 6,
            i < axis_len(d as int),
            rows == slice_rows(d as int),
            v <= rows,
            mask@.len() == 32 * rows,
            g == face_grid(*chunk, d as int, i as int),
            forall|r: int, c: int|
                0 <= r < rows && 0 <= c < 32 ==> #[trigger] mask@[32 * r + c] == if r < v {
                    g[r][c]
                } else {
                    0
                },
        decreases rows - v,
    {
        let mut u: usize = 0;
        while u < CHUNK_SIZE
            invariant
                chunk.wf(),
                d < 6,
                i < axis_len(d as int),
                rows == slice_rows(d as int),
                v < rows,
                u <= 32,
                mask@.len() == 32 * rows,
                g == face_grid(*chunk, d as int, i as int),
                forall|r: int, c: int|
                    0 <= r < rows && 0 <= c < 32 ==> #[trigger] mask@[32 * r + c] == if r < v || (r
                        == v && c < u) {
                        g[r][c]
                    } else {
                        0
                    },
            decreases 32 - u,
        {
            let (x, y, z) = if d < 2 {
                (u, i, v)
            } else if d < 4 {
                (i, v, u)
            } else {
                (u, v, i)
            };
            let voxel = chunk.get_voxel(x, y, z);
            if voxel != 0 {
                let (xi, yi, zi) = (x as i32, y as i32, z as i32);
                let exposed = if d == 0 {
                    is_air(chunk, xi, yi + 1, zi)
                } else if d == 1 {
                    is_air(chunk, xi, yi - 1, zi)
                } else if d == 2 {
                    is_air(chunk, xi + 1, yi, zi)
                } else if d == 3 {
                    is_air(chunk, xi - 1, yi, zi)
                } else if d == 4 {
                    is_air(chunk, xi, yi, zi + 1)
                } else {
                    is_air(chunk, xi, yi, zi - 1)
                };
                if exposed {
                    mask.set(v * CHUNK_SIZE + u, voxel);
                }
            }
            assert(mask@[32 * v + u] == g[v as int][u as int]);
            u += 1;
        }
        v += 1;
    }
    assert(mask_grid(mask@, rows as int) =~~= g);
    mask
}


/// Appends the face of direction `d` in slice `i` that quad `q` describes, for a chunk
/// whose corner is at `(ox, oy, oz)`.
fn emit_face(
    verts: &mut Vec<Vertex>,
    inds: &mut Vec<u32>,
    count: &mut u32,
    d: usize,
    i: usize,
    q: Quad,
    ox: i32,
    oy: i32,
    oz: i32,
)
    requires
        d < 6,
        i < 256,
        q.u + q.width <= 32,
        q.v + q.height <= 256,
        q.id != 0,
        *old(count) + 4 <= u32::MAX,
    ensures
        final(verts)@ == old(verts)@ + face_vertices(
            (d as int, i as int, q),
            (ox as int, oy as int, oz as int),
        ),
        final(inds)@ == old(inds)@ + quad_indices(*old(count) as int),
        *final(count) == *old(count) + 4,
{
    let (xf, yf, zf): (i64, i64, i64) = if d < 2 {
        (q.u as i64 + ox as i64, i as i64 + oy as i64, q.v as i64 + oz as i64)
    } else if d < 4 {
        (i as i64 + ox as i64, q.v as i64 + oy as i64, q.u as i64 + oz as i64)
    } else {
        (q.u as i64 + ox as i64, q.v as i64 + oy as i64, i as i64 + oz as i64)
    };
    let wf = q.width as i64;
    let hf = q.height as i64;
    let layer = q.id as u32 - 1;
    let pos: [[i64; 3]; 4] = if d == 0 {
        [[xf, yf + 1, zf + hf], [xf, yf + 1, zf], [xf + wf, yf + 1, zf], [xf + wf, yf + 1, zf + hf]]
    } else if d == 1 {
        [[xf, yf, zf], [xf, yf, zf + hf], [xf + wf, yf, zf + hf], [xf + wf, yf, zf]]
    } else if d == 2 {
        [[xf + 1, yf, zf + wf], [xf + 1, yf + hf, zf + wf], [xf + 1, yf + hf, zf], [xf + 1, yf, zf]]
    } else if d == 3 {
        [[xf, yf, zf], [xf, yf + hf, zf], [xf, yf + hf, zf + wf], [xf, yf, zf + wf]]
    } else if d == 4 {
        [[xf + wf, yf, zf + 1], [xf + wf, yf + hf, zf + 1], [xf, yf + hf, zf + 1], [xf, yf, zf + 1]]
    } else {
        [[xf, yf, zf], [xf, yf + hf, zf], [xf + wf, yf + hf, zf], [xf + wf, yf, zf]]
    };
    let ghost p = slice_voxel(d as int, i as int, q.u as int, q.v as int);
    assert(pos == face_corners(
        d as int,
        p.0 + ox,
        p.1 + oy,
        p.2 + oz,
        q.width as int,
        q.height as int,
    ));
    push_face(verts, inds, count, pos, q.width as u32, q.height as u32, layer);
}

/// How many slices come before slice `i` of direction `d`.
pub open spec fn slices_before(d: int, i: int) -> int {
    (if d < 2 {
        256 * d
    } else {
        512 + 32 * (d - 2)
    }) + i
}

/// Builds the mesh of a chunk: for each of the six directions and each slice across it,
/// the exposed faces are merged by greedy meshing into rectangles, and each rectangle
/// becomes four vertices and two triangles.
pub fn generate_mesh(chunk: &Chunk) -> (mesh: Mesh)
    requires
        chunk.wf(),
        offset_in_range(chunk.pos()),
    ensures
        mesh.vertices@ == faces_vertices(mesh_faces(*chunk), chunk_offset(chunk.pos())),
        mesh.indices@ == faces_indices(mesh_faces(*chunk).len() as int),
        mesh.vertices@.len() == 4 * mesh_faces(*chunk).len(),
        mesh.indices@.len() == 6 * mesh_faces(*chunk).len(),
        mesh_is_valid(mesh.vertices@, mesh.indices@),
        forall|k: int|
            0 <= k < mesh_faces(*chunk).len() ==> draws_face(
                mesh.vertices@,
                k,
                #[trigger] mesh_faces(*chunk)[k],
                chunk_offset(chunk.pos()),
            ),
{
    let ghost c = *chunk;
    let pos = chunk.position();
    let offset_x: i32 = pos.x * (CHUNK_SIZE as i32);
    let offset_y: i32 = pos.y * (CHUNK_HEIGHT as i32);
    let offset_z: i32 = pos.z * (CHUNK_SIZE as i32);
    let ghost o = (offset_x as int, offset_y as int, offset_z as int);
    assert(o == chunk_offset(chunk.pos()));
    let mut vertices: Vec<Vertex> = Vec::new();
    let mut indices: Vec<u32> = Vec::new();
    let mut index_count: u32 = 0;
    let mut d: usize = 0;
    while d < 6
        invariant
            chunk.wf(),
            c == *chunk,
            o == (offset_x as int, offset_y as int, offset_z as int),
            d <= 6,
            vertices@ == faces_vertices(faces_before(c, d as int, 0), o),
            indices@ == faces_indices(faces_before(c, d as int, 0).len() as int),
            index_count == 4 * faces_before(c, d as int, 0).len(),
            faces_before(c, d as int, 0).len() <= 8192 * slices_before(d as int, 0),
        decreases 6 - d,
    {
        let (axis_limit, rows) = if d < 2 {
            (CHUNK_HEIGHT, CHUNK_SIZE)
        } else {
            (CHUNK_SIZE, CHUNK_HEIGHT)
        };
        let mut i: usize = 0;
        while i < axis_limit
            invariant
                chunk.wf(),
                c == *chunk,
                o == (offset_x as int, offset_y as int, offset_z as int),
                d < 6,
                axis_limit == axis_len(d as int),
                rows == slice_rows(d as int),
                i <= axis_limit,
                vertices@ == faces_vertices(faces_before(c, d as int, i as int), o),
                indices@ == faces_indices(faces_before(c, d as int, i as int).len() as int),
                index_count == 4 * faces_before(c, d as int, i as int).len(),
                faces_before(c, d as int, i as int).len() <= 8192 * slices_before(
                    d as int,
                    i as int,
                ),
            decreases axis_limit - i,
        {
            let ghost before = faces_before(c, d as int, i as int);
            let ghost sf = slice_faces(c, d as int, i as int);
            let mask = face_mask(chunk, d, i, rows);
            let quads = greedy_quads(mask, rows);
            proof {
                lemma_greedy_partitions(face_grid(c, d as int, i as int), 32, rows as int);
                assert(quads@ == slice_quads(c, d as int, i as int));
            }
            let mut k: usize = 0;
            while k < quads.len()
                invariant
                    o == (offset_x as int, offset_y as int, offset_z as int),
                    d < 6,
                    i < axis_limit,
                    axis_limit == axis_len(d as int),
                    rows == slice_rows(d as int),
                    k <= quads@.len(),
                    quads@.len() <= 32 * rows,
                    quads@ == slice_quads(c, d as int, i as int),
                    sf == slice_faces(c, d as int, i as int),
                    partitions(quads@, face_grid(c, d as int, i as int), 32, rows as int),
                    before.len() <= 8192 * slices_before(d as int, i as int),
                    slices_before(d as int, i as int) < 640,
                    vertices@ == faces_vertices(before + sf.take(k as int), o),
                    indices@ == faces_indices((before + sf.take(k as int)).len() as int),
                    index_count == 4 * (before + sf.take(k as int)).len(),
                decreases quads@.len() - k,
            {
                let q = quads[k];
                assert(q == quads@[k as int]);
                let ghost fs = before + sf.take(k as int);
                let ghost f = (d as int, i as int, q);
                emit_face(
                    &mut vertices,
                    &mut indices,
                    &mut index_count,
                    d,
                    i,
                    q,
                    offset_x,
                    offset_y,
                    offset_z,
                );
                proof {
                    assert(sf[k as int] == f);
                    assert(before + sf.take(k + 1) =~= fs.push(f));
                    assert(fs.push(f).drop_last() =~= fs);
                    assert(faces_vertices(fs.push(f), o) == faces_vertices(fs, o) + face_vertices(f, o));
                    assert(faces_indices((fs.len() + 1) as int) == faces_indices(fs.len() as int)
                        + quad_indices(4 * fs.len() as int));
                }
                k += 1;
            }
            proof {
                assert(sf.take(quads@.len() as int) =~= sf);
                assert(faces_before(c, d as int, i + 1) == before + sf);
            }
            i += 1;
        }
        proof {
            assert(faces_before(c, d + 1, 0) == faces_before(c, d as int, axis_len(d as int)));
        }
        d += 1;
    }
    proof {
        lemma_faces_mesh_valid(mesh_faces(c), o);
        assert forall|k: int| 0 <= k < mesh_faces(c).len() implies draws_face(
            vertices@,
            k,
            #[trigger] mesh_faces(c)[k],
            o,
        ) by {
            lemma_mesh_face_geometry(c, k);
        }
    }
    Mesh { vertices, indices }
}


/// The vertices of several meshes, one mesh after another.
pub open spec fn combined_vertices(ms: Seq<Mesh>) -> Seq<Vertex>
    decreases ms.len(),
{
    if ms.len() == 0 {
        Seq::empty()
    } else {
        combined_vertices(ms.drop_last()) + ms.last().vertices@
    }
}

/// Each index raised by `by`.
pub open spec fn shift_indices(idx: Seq<u32>, by: u32) -> Seq<u32> {
    idx.map_values(|i: u32| (i + by) as u32)
}

/// The indices of several meshes, one mesh after another, each renumbered past the
/// vertices of the meshes before it.
pub open spec fn combined_indices(ms: Seq<Mesh>) -> Seq<u32>
    decreases ms.len(),
{
    if ms.len() == 0 {
        Seq::empty()
    } else {
        combined_indices(ms.drop_last()) + shift_indices(
            ms.last().indices@,
            combined_vertices(ms.drop_last()).len() as u32,
        )
    }
}

/// Renumbering the indices of every mesh past the vertices before it stays within `u32`.
pub open spec fn combine_fits(ms: Seq<Mesh>) -> bool {
    forall|k: int, j: int|
        0 <= k < ms.len() && 0 <= j < ms[k].indices@.len() ==> #[trigger] ms[k].indices@[j]
            + (combined_vertices(ms.take(k)).len() as u32) <= u32::MAX
}

/// The number of vertices of the first `k` meshes.
pub open spec fn vertices_before(ms: Seq<Mesh>, k: int) -> int
    decreases k,
{
    if k <= 0 {
        0
    } else {
        vertices_before(ms, k - 1) + ms[k - 1].vertices@.len()
    }
}

/// The number of indices of the first `k` meshes.
pub open spec fn indices_before(ms: Seq<Mesh>, k: int) -> int
    decreases k,
{
    if k <= 0 {
        0
    } else {
        indices_before(ms, k - 1) + ms[k - 1].indices@.len()
    }
}

proof fn lemma_before_prefix(ms: Seq<Mesh>, k: int)
    requires
        0 <= k < ms.len(),
    ensures
        vertices_before(ms.drop_last(), k) == vertices_before(ms, k),
        indices_before(ms.drop_last(), k) == indices_before(ms, k),
    decreases k,
{
    if k > 0 {
        lemma_before_prefix(ms, k - 1);
        assert(ms.drop_last()[k - 1] == ms[k - 1]);
    }
}

/// Merged meshes keep every vertex of every mesh, in order: vertex `j` of mesh `k` lands
/// after the vertices of the meshes before it; index `j` of mesh `k` lands after their
/// indices, raised by their vertex count (taken as `u32`).
pub proof fn lemma_combined_pointwise(ms: Seq<Mesh>)
    ensures
        combined_vertices(ms).len() == vertices_before(ms, ms.len() as int),
        combined_indices(ms).len() == indices_before(ms, ms.len() as int),
        forall|k: int, j: int|
            0 <= k < ms.len() && 0 <= j < ms[k].vertices@.len() ==> combined_vertices(ms)[vertices_before(
                ms,
                k,
            ) + j] == #[trigger] ms[k].vertices@[j],
        forall|k: int, j: int|
            0 <= k < ms.len() && 0 <= j < ms[k].indices@.len() ==> combined_indices(ms)[indices_before(
                ms,
                k,
            ) + j] == (#[trigger] ms[k].indices@[j] + (vertices_before(ms, k) as u32)) as u32,
    decreases ms.len(),
{
    if ms.len() > 0 {
        let p = ms.drop_last();
        let n = p.len() as int;
        lemma_combined_pointwise(p);
        assert forall|k: int| 0 <= k < n implies vertices_before(p, k) == vertices_before(ms, k)
            && indices_before(p, k) == indices_before(ms, k) by {
            lemma_before_prefix(ms, k);
        }
        lemma_before_prefix(ms, n);
        lemma_combined_prefix_len(ms, n);
        assert(ms.take(n) =~= p);
        let cv = combined_vertices(ms);
        let ci = combined_indices(ms);
        assert(cv == combined_vertices(p) + ms.last().vertices@);
        let cp = combined_vertices(p);
        let cip = combined_indices(p);
        let sh = shift_indices(ms.last().indices@, cp.len() as u32);
        assert(ci == cip + sh);
        assert(ms[n] == ms.last());
        assert(cp.len() == vertices_before(p, n));
        assert(cip.len() == indices_before(p, n));
        assert forall|k: int, j: int|
            0 <= k < ms.len() && 0 <= j < ms[k].vertices@.len() implies cv[vertices_before(ms, k) + j]
            == #[trigger] ms[k].vertices@[j] by {
            if k < n {
                assert(p[k] == ms[k]);
                lemma_before_prefix(ms, k);
                lemma_before_mono(p, k + 1, n);
                lemma_before_mono(p, 0, k);
                assert(vertices_before(p, k + 1) == vertices_before(p, k) + p[k].vertices@.len());
                assert(cp[vertices_before(p, k) + j] == p[k].vertices@[j]);
                assert(j < p[k].vertices@.len());
                assert(vertices_before(p, k) + j < cp.len());
                assert(cv == cp + ms.last().vertices@);
                assert(cv[vertices_before(p, k) + j] == cp[vertices_before(p, k) + j]);
            } else {
                assert(cv[cp.len() + j] == ms.last().vertices@[j]);
            }
        }
        assert forall|k: int, j: int|
            0 <= k < ms.len() && 0 <= j < ms[k].indices@.len() implies ci[indices_before(ms, k) + j]
            == (#[trigger] ms[k].indices@[j] + (vertices_before(ms, k) as u32)) as u32 by {
            if k < n {
                assert(p[k] == ms[k]);
                lemma_before_prefix(ms, k);
                lemma_before_mono(p, k + 1, n);
                lemma_before_mono(p, 0, k);
                assert(indices_before(p, k + 1) == indices_before(p, k) + p[k].indices@.len());
                assert(cip[indices_before(p, k) + j] == (p[k].indices@[j] + (vertices_before(p, k)
                    as u32)) as u32);
                assert(ci[indices_before(p, k) + j] == cip[indices_before(p, k) + j]);
            } else {
                assert(ci[cip.len() + j] == sh[j]);
            }
        }
    }
}

proof fn lemma_vertices_before_take(ms: Seq<Mesh>, k: int, a: int)
    requires
        0 <= a <= k <= ms.len(),
    ensures
        vertices_before(ms.take(k), a) == vertices_before(ms, a),
    decreases a,
{
    if a > 0 {
        lemma_vertices_before_take(ms, k, a - 1);
        assert(ms.take(k)[a - 1] == ms[a - 1]);
    }
}

/// Under `combine_fits`, raising an index past the vertices before its mesh stays in `u32`.
proof fn lemma_fits_pointwise(ms: Seq<Mesh>)
    requires
        combine_fits(ms),
    ensures
        forall|k: int, j: int|
            0 <= k < ms.len() && 0 <= j < ms[k].indices@.len() ==> #[trigger] ms[k].indices@[j]
                + (vertices_before(ms, k) as u32) <= u32::MAX,
{
    assert forall|k: int, j: int|
        0 <= k < ms.len() && 0 <= j < ms[k].indices@.len() implies #[trigger] ms[k].indices@[j]
        + (vertices_before(ms, k) as u32) <= u32::MAX by {
        lemma_combined_pointwise(ms.take(k));
        lemma_vertices_before_take(ms, k, k);
        assert(ms[k].indices@[j] + (combined_vertices(ms.take(k)).len() as u32) <= u32::MAX);
    }
}

proof fn lemma_before_mono(ms: Seq<Mesh>, a: int, b: int)
    requires
        0 <= a <= b,
    ensures
        vertices_before(ms, a) <= vertices_before(ms, b),
        indices_before(ms, a) <= indices_before(ms, b),
    decreases b,
{
    if a < b {
        lemma_before_mono(ms, a, b - 1);
    }
}

/// Merges several meshes into one: the vertex lists one after another, and the indices
/// of each mesh renumbered past the vertices of the meshes before it.
pub fn combine_meshes(meshes: Vec<Mesh>) -> (mesh: Mesh)
    requires
        combine_fits(meshes@),
    ensures
        mesh.vertices@ == combined_vertices(meshes@),
        mesh.indices@ == combined_indices(meshes@),
        mesh.vertices@.len() == vertices_before(meshes@, meshes@.len() as int),
        mesh.indices@.len() == indices_before(meshes@, meshes@.len() as int),
        forall|k: int, j: int|
            0 <= k < meshes@.len() && 0 <= j < meshes@[k].vertices@.len() ==> mesh.vertices@[vertices_before(
                meshes@,
                k,
            ) + j] == #[trigger] meshes@[k].vertices@[j],
        forall|k: int, j: int|
            0 <= k < meshes@.len() && 0 <= j < meshes@[k].indices@.len() ==> mesh.indices@[indices_before(
                meshes@,
                k,
            ) + j] == #[trigger] meshes@[k].indices@[j] + (vertices_before(meshes@, k) as u32),
{
    let mut all_vertices: Vec<Vertex> = Vec::new();
    let mut all_indices: Vec<u32> = Vec::new();
    let mut k: usize = 0;
    while k < meshes.len()
        invariant
            k <= meshes@.len(),
            combine_fits(meshes@),
            all_vertices@ == combined_vertices(meshes@.take(k as int)),
            all_indices@ == combined_indices(meshes@.take(k as int)),
        decreases meshes@.len() - k,
    {
        let mesh = &meshes[k];
        let vertex_count = all_vertices.len() as u32;
        let ghost vs0 = all_vertices@;
        let ghost is0 = all_indices@;
        let mut j: usize = 0;
        while j < mesh.vertices.len()
            invariant
                j <= mesh.vertices@.len(),
                all_vertices@ == vs0 + mesh.vertices@.take(j as int),
            decreases mesh.vertices@.len() - j,
        {
            all_vertices.push(mesh.vertices[j]);
            assert(all_vertices@ =~= vs0 + mesh.vertices@.take(j + 1));
            j += 1;
        }
        let mut j: usize = 0;
        while j < mesh.indices.len()
            invariant
                k < meshes@.len(),
                *mesh == meshes@[k as int],
                combine_fits(meshes@),
                vertex_count == (combined_vertices(meshes@.take(k as int)).len() as u32),
                j <= mesh.indices@.len(),
                all_indices@ == is0 + shift_indices(mesh.indices@.take(j as int), vertex_count),
            decreases mesh.indices@.len() - j,
        {
            assert(mesh.indices@[j as int] + vertex_count <= u32::MAX);
            all_indices.push(mesh.indices[j] + vertex_count);
            assert(all_indices@ =~= is0 + shift_indices(mesh.indices@.take(j + 1), vertex_count));
            j += 1;
        }
        proof {
            let t = meshes@.take(k + 1);
            assert(t.drop_last() =~= meshes@.take(k as int));
            assert(mesh.vertices@.take(mesh.vertices@.len() as int) =~= mesh.vertices@);
            assert(mesh.indices@.take(mesh.indices@.len() as int) =~= mesh.indices@);
        }
        k += 1;
    }
    assert(meshes@.take(meshes@.len() as int) =~= meshes@);
    proof {
        lemma_combined_pointwise(meshes@);
        lemma_fits_pointwise(meshes@);
    }
    Mesh { vertices: all_vertices, indices: all_indices }
}


/// The vertices of face `k` of a face list are the four vertices from `4 * k` on.
pub proof fn lemma_faces_vertices_index(fs: Seq<(int, int, Quad)>, o: (int, int, int), k: int, j: int)
    requires
        0 <= k < fs.len(),
        0 <= j < 4,
    ensures
        faces_vertices(fs, o).len() == 4 * fs.len(),
        faces_vertices(fs, o)[4 * k + j] == face_vertices(fs[k], o)[j],
    decreases fs.len(),
{
    lemma_faces_vertices_len(fs, o);
    let p = fs.drop_last();
    lemma_faces_vertices_len(p, o);
    if k < fs.len() - 1 {
        lemma_faces_vertices_index(p, o, k, j);
        assert(p[k] == fs[k]);
    }
}

proof fn lemma_faces_vertices_len(fs: Seq<(int, int, Quad)>, o: (int, int, int))
    ensures
        faces_vertices(fs, o).len() == 4 * fs.len(),
    decreases fs.len(),
{
    if fs.len() > 0 {
        lemma_faces_vertices_len(fs.drop_last(), o);
    }
}

proof fn lemma_faces_indices(n: int)
    requires
        0 <= n,
        4 * n <= 0x1_0000_0000,
    ensures
        faces_indices(n).len() == 6 * n,
        forall|t: int| 0 <= t < 6 * n ==> #[trigger] faces_indices(n)[t] < 4 * n,
    decreases n,
{
    if n > 0 {
        lemma_faces_indices(n - 1);
        let prev = faces_indices(n - 1);
        assert forall|t: int| 0 <= t < 6 * n implies #[trigger] faces_indices(n)[t] < 4 * n by {
            if t < 6 * (n - 1) {
                assert(faces_indices(n)[t] == prev[t]);
            } else {
                assert(faces_indices(n)[t] == quad_indices(4 * (n - 1))[t - 6 * (n - 1)]);
            }
        }
    }
}

/// The mesh of `fs` faces has four vertices and six indices per face, and every index
/// names one of its vertices.
pub proof fn lemma_faces_mesh_valid(fs: Seq<(int, int, Quad)>, o: (int, int, int))
    requires
        4 * fs.len() <= 0x1_0000_0000,
    ensures
        faces_vertices(fs, o).len() == 4 * fs.len(),
        faces_indices(fs.len() as int).len() == 6 * fs.len(),
        mesh_is_valid(faces_vertices(fs, o), faces_indices(fs.len() as int)),
{
    lemma_faces_vertices_len(fs, o);
    lemma_faces_indices(fs.len() as int);
}

proof fn lemma_combined_prefix_len(ms: Seq<Mesh>, k: int)
    requires
        0 <= k <= ms.len(),
    ensures
        combined_vertices(ms.take(k)).len() <= combined_vertices(ms).len(),
    decreases ms.len(),
{
    if k == ms.len() {
        assert(ms.take(k) =~= ms);
    } else {
        let p = ms.drop_last();
        assert(p.take(k) =~= ms.take(k));
        lemma_combined_prefix_len(p, k);
    }
}

/// Meshes that are each valid, and that have no more vertices together than `u32`
/// indices can name, combine without overflow into a valid mesh.
pub proof fn lemma_combine_valid(ms: Seq<Mesh>)
    requires
        forall|k: int| 0 <= k < ms.len() ==> mesh_is_valid(#[trigger] ms[k].vertices@, ms[k].indices@),
        combined_vertices(ms).len() <= 0x1_0000_0000,
    ensures
        combine_fits(ms),
        mesh_is_valid(combined_vertices(ms), combined_indices(ms)),
    decreases ms.len(),
{
    if ms.len() > 0 {
        let p = ms.drop_last();
        let m = ms.last();
        let n = ms.len() - 1;
        assert forall|k: int| 0 <= k < p.len() implies mesh_is_valid(
            #[trigger] p[k].vertices@,
            p[k].indices@,
        ) by {
            assert(p[k] == ms[k]);
        }
        lemma_combine_valid(p);
        let off = combined_vertices(p).len();
        assert(ms.take(n) =~= p);
        assert forall|k: int, j: int|
            0 <= k < ms.len() && 0 <= j < ms[k].indices@.len() implies #[trigger] ms[k].indices@[j]
            + (combined_vertices(ms.take(k)).len() as u32) <= u32::MAX by {
            if k < n {
                assert(p.take(k) =~= ms.take(k));
                assert(p[k] == ms[k]);
                assert(p[k].indices@[j] + (combined_vertices(p.take(k)).len() as u32) <= u32::MAX);
            } else {
                assert(ms[k].indices@[j] < m.vertices@.len());
            }
        }
        let ci = combined_indices(ms);
        let cp = combined_indices(p);
        let sh = shift_indices(m.indices@, off as u32);
        assert(ci == cp + sh);
        assert forall|t: int| 0 <= t < ci.len() implies (#[trigger] ci[t]) < combined_vertices(
            ms,
        ).len() by {
            if t < cp.len() {
                assert(ci[t] == cp[t]);
            } else {
                assert(ci[t] == sh[t - cp.len()]);
                assert(m.indices@[t - cp.len()] < m.vertices@.len());
            }
        }
    }
}

} // verus!
