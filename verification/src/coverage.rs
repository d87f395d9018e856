use vstd::prelude::*;
use crate::chunk::{Chunk, in_chunk};
use crate::greedy::{
    Quad, covers, partitions, lemma_greedy_partitions, grid_shape, nonzero_from,
    lemma_greedy_at_most_nonzero,
};
use crate::mesher::{
    axis_len, slice_rows, slice_voxel, exposed_face, face_grid, slice_quads, slice_faces,
    faces_before, mesh_faces, Vertex, faces_vertices, face_vertices, chunk_offset, offset_in_range,
    lemma_faces_vertices_index,
};

verus! {

/// Slice `i` of direction `d` exists.
pub open spec fn valid_slice(d: int, i: int) -> bool {
    0 <= d < 6 && 0 <= i < axis_len(d)
}

/// Slice `(d1, i1)` is emitted before slice `(d2, i2)`.
pub open spec fn slice_lt(d1: int, i1: int, d2: int, i2: int) -> bool {
    d1 < d2 || (d1 == d2 && i1 < i2)
}

/// The slice, column and row at which the face of direction `d` of voxel `(x, y, z)` is
/// meshed.
pub open spec fn slice_coords(d: int, x: int, y: int, z: int) -> (int, int, int) {
    if d < 2 {
        (y, x, z)
    } else if d < 4 {
        (x, z, y)
    } else {
        (z, x, y)
    }
}

/// Face `f` of the mesh draws the face of direction `d` of voxel `(x, y, z)`.
pub open spec fn face_covers(f: (int, int, Quad), d: int, x: int, y: int, z: int) -> bool {
    let s = slice_coords(d, x, y, z);
    f.0 == d && f.1 == s.0 && covers(f.2, s.2, s.1)
}

/// The faces in `fs` come from the slices before `(d0, i0)`, each is a quad that greedy
/// meshing makes of its slice, every exposed cell of those slices is covered, and no
/// cell of a slice is covered twice.
spec fn faces_cover(c: Chunk, fs: Seq<(int, int, Quad)>, d0: int, i0: int) -> bool {
    &&& forall|k: int|
        0 <= k < fs.len() ==> {
            &&& valid_slice((#[trigger] fs[k]).0, fs[k].1)
            &&& slice_lt(fs[k].0, fs[k].1, d0, i0)
            &&& slice_quads(c, fs[k].0, fs[k].1).contains(fs[k].2)
        }
    &&& forall|d: int, i: int, u: int, v: int|
        valid_slice(d, i) && slice_lt(d, i, d0, i0) && 0 <= u < 32 && 0 <= v < slice_rows(d)
            && #[trigger] face_grid(c, d, i)[v][u] != 0 ==> exists|k: int|
            0 <= k < fs.len() && fs[k].0 == d && fs[k].1 == i && #[trigger] covers(fs[k].2, v, u)
    &&& forall|k1: int, k2: int, v: int, u: int|
        0 <= k1 < fs.len() && 0 <= k2 < fs.len() && fs[k1].0 == fs[k2].0 && fs[k1].1 == fs[k2].1
            && #[trigger] covers(fs[k1].2, v, u) && #[trigger] covers(fs[k2].2, v, u) ==> k1 == k2
}

proof fn lemma_slice_partitions(c: Chunk, d: int, i: int)
    requires
        valid_slice(d, i),
    ensures
        partitions(slice_quads(c, d, i), face_grid(c, d, i), 32, slice_rows(d)),
{
    assert(grid_shape(face_grid(c, d, i), 32, slice_rows(d)));
    lemma_greedy_partitions(face_grid(c, d, i), 32, slice_rows(d));
}

proof fn lemma_faces_before_cover(c: Chunk, d0: int, i0: int)
    requires
        0 <= d0 <= 6,
        0 <= i0,
        d0 < 6 ==> i0 <= axis_len(d0),
        d0 == 6 ==> i0 == 0,
    ensures
        faces_cover(c, faces_before(c, d0, i0), d0, i0),
    decreases d0, i0,
{
    let fs = faces_before(c, d0, i0);
    if i0 == 0 {
        if d0 > 0 {
            lemma_faces_before_cover(c, d0 - 1, axis_len(d0 - 1));
        }
    } else {
        lemma_faces_before_cover(c, d0, i0 - 1);
        let p = faces_before(c, d0, i0 - 1);
        let sf = slice_faces(c, d0, i0 - 1);
        let qs = slice_quads(c, d0, i0 - 1);
        assert(fs == p + sf);
        lemma_slice_partitions(c, d0, i0 - 1);
        assert forall|k: int|
            0 <= k < fs.len() implies {
            &&& valid_slice((#[trigger] fs[k]).0, fs[k].1)
            &&& slice_lt(fs[k].0, fs[k].1, d0, i0)
            &&& slice_quads(c, fs[k].0, fs[k].1).contains(fs[k].2)
        } by {
            if k >= p.len() {
                assert(fs[k] == sf[k - p.len()]);
                assert(qs[k - p.len()] == fs[k].2);
            } else {
                assert(fs[k] == p[k]);
            }
        }
        assert forall|d: int, i: int, u: int, v: int|
            valid_slice(d, i) && slice_lt(d, i, d0, i0) && 0 <= u < 32 && 0 <= v < slice_rows(d)
                && #[trigger] face_grid(c, d, i)[v][u] != 0 implies exists|k: int|
            0 <= k < fs.len() && fs[k].0 == d && fs[k].1 == i && #[trigger] covers(fs[k].2, v, u) by {
            if d == d0 && i == i0 - 1 {
                let j = choose|j: int| 0 <= j < qs.len() && #[trigger] covers(qs[j], v, u);
                assert(fs[p.len() + j] == sf[j]);
                assert(covers(fs[p.len() + j].2, v, u));
            } else {
                let k = choose|k: int|
                    0 <= k < p.len() && p[k].0 == d && p[k].1 == i && #[trigger] covers(p[k].2, v, u);
                assert(fs[k] == p[k]);
            }
        }
        assert forall|k1: int, k2: int, v: int, u: int|
            0 <= k1 < fs.len() && 0 <= k2 < fs.len() && fs[k1].0 == fs[k2].0 && fs[k1].1
                == fs[k2].1 && #[trigger] covers(fs[k1].2, v, u) && #[trigger] covers(
                fs[k2].2,
                v,
                u,
            ) implies k1 == k2 by {
            if k1 < p.len() {
                assert(fs[k1] == p[k1]);
            } else {
                assert(fs[k1] == sf[k1 - p.len()]);
                assert(fs[k1].2 == qs[k1 - p.len()]);
            }
            if k2 < p.len() {
                assert(fs[k2] == p[k2]);
            } else {
                assert(fs[k2] == sf[k2 - p.len()]);
                assert(fs[k2].2 == qs[k2 - p.len()]);
            }
            if k1 >= p.len() && k2 >= p.len() {
                assert(covers(qs[k1 - p.len()], v, u));
                assert(covers(qs[k2 - p.len()], v, u));
            }
        }
    }
}

/// Every exposed face of every voxel of the chunk is drawn by exactly one face of its
/// mesh, and that face belongs to the direction and slice of the voxel's face and is
/// textured with the voxel's id; no face of the mesh draws a face that is not exposed.
pub proof fn lemma_mesh_covers_exposed_faces(c: Chunk, d: int, x: int, y: int, z: int)
    requires
        0 <= d < 6,
        in_chunk(x, y, z),
    ensures
        exposed_face(c, d, x, y, z) != 0 ==> exists|k: int|
            0 <= k < mesh_faces(c).len() && #[trigger] face_covers(mesh_faces(c)[k], d, x, y, z),
        forall|k: int|
            0 <= k < mesh_faces(c).len() && #[trigger] face_covers(mesh_faces(c)[k], d, x, y, z)
                ==> mesh_faces(c)[k].2.id == exposed_face(c, d, x, y, z) && exposed_face(
                c,
                d,
                x,
                y,
                z,
            ) != 0,
        forall|k1: int, k2: int|
            0 <= k1 < mesh_faces(c).len() && 0 <= k2 < mesh_faces(c).len() && #[trigger] face_covers(
                mesh_faces(c)[k1],
                d,
                x,
                y,
                z,
            ) && #[trigger] face_covers(mesh_faces(c)[k2], d, x, y, z) ==> k1 == k2,
{
    let fs = mesh_faces(c);
    lemma_faces_before_cover(c, 6, 0);
    let s = slice_coords(d, x, y, z);
    let (i, u, v) = s;
    assert(valid_slice(d, i));
    assert(slice_lt(d, i, 6, 0));
    assert(slice_voxel(d, i, u, v) == (x, y, z));
    assert(face_grid(c, d, i)[v][u] == exposed_face(c, d, x, y, z));
    if exposed_face(c, d, x, y, z) != 0 {
        let k = choose|k: int|
            0 <= k < fs.len() && fs[k].0 == d && fs[k].1 == i && #[trigger] covers(fs[k].2, v, u);
        assert(face_covers(fs[k], d, x, y, z));
    }
    assert forall|k: int|
        0 <= k < fs.len() && #[trigger] face_covers(fs[k], d, x, y, z) implies fs[k].2.id
        == exposed_face(c, d, x, y, z) && exposed_face(c, d, x, y, z) != 0 by {
        let qs = slice_quads(c, d, i);
        lemma_slice_partitions(c, d, i);
        assert(qs.contains(fs[k].2));
        let j = choose|j: int| 0 <= j < qs.len() && qs[j] == fs[k].2;
        assert(covers(qs[j], v, u));
    }
    assert forall|k1: int, k2: int|
        0 <= k1 < fs.len() && 0 <= k2 < fs.len() && #[trigger] face_covers(fs[k1], d, x, y, z)
            && #[trigger] face_covers(fs[k2], d, x, y, z) implies k1 == k2 by {
        assert(covers(fs[k1].2, v, u));
        assert(covers(fs[k2].2, v, u));
    }
}


/// The number of exposed voxel faces in the slices before slice `i` of direction `d`.
pub open spec fn exposed_before(c: Chunk, d: int, i: int) -> int
    decreases d, i,
{
    if d < 0 || i < 0 {
        0
    } else if i == 0 {
        if d == 0 {
            0
        } else {
            exposed_before(c, d - 1, axis_len(d - 1))
        }
    } else {
        exposed_before(c, d, i - 1) + nonzero_from(face_grid(c, d, i - 1), 32, slice_rows(d), 0, 0)
    }
}

/// The number of exposed voxel faces of the chunk: the faces that drawing one quad per
/// voxel face would draw.
pub open spec fn exposed_faces(c: Chunk) -> int {
    exposed_before(c, 6, 0)
}

proof fn lemma_faces_before_at_most_exposed(c: Chunk, d: int, i: int)
    ensures
        faces_before(c, d, i).len() <= exposed_before(c, d, i),
    decreases d, i,
{
    if d < 0 || i < 0 {
    } else if i == 0 {
        if d > 0 {
            lemma_faces_before_at_most_exposed(c, d - 1, axis_len(d - 1));
        }
    } else {
        lemma_faces_before_at_most_exposed(c, d, i - 1);
        assert(grid_shape(face_grid(c, d, i - 1), 32, slice_rows(d)));
        lemma_greedy_at_most_nonzero(face_grid(c, d, i - 1), 32, slice_rows(d));
    }
}

/// Greedy meshing never draws more faces than the chunk has exposed voxel faces, so the
/// mesh has at most four vertices per exposed voxel face.
pub proof fn lemma_mesh_at_most_exposed_faces(c: Chunk)
    ensures
        mesh_faces(c).len() <= exposed_faces(c),
{
    lemma_faces_before_at_most_exposed(c, 6, 0);
}


/// The axis that faces of direction `d` face along: Y for the first two directions,
/// X for the next two, Z for the last two.
pub open spec fn normal_axis(d: int) -> int {
    if d < 2 {
        1
    } else if d < 4 {
        0
    } else {
        2
    }
}

/// The axis along which the columns of a slice of direction `d` run.
pub open spec fn column_axis(d: int) -> int {
    if d < 2 {
        0
    } else if d < 4 {
        2
    } else {
        0
    }
}

/// The axis along which the rows of a slice of direction `d` run.
pub open spec fn row_axis(d: int) -> int {
    if d < 2 {
        2
    } else {
        1
    }
}

/// Coordinate `a` (0 = X, 1 = Y, 2 = Z) of a point.
pub open spec fn coord(p: [i64; 3], a: int) -> int {
    if a == 0 {
        p[0] as int
    } else if a == 1 {
        p[1] as int
    } else {
        p[2] as int
    }
}

/// Coordinate `a` (0 = X, 1 = Y, 2 = Z) of an offset.
pub open spec fn offset_coord(o: (int, int, int), a: int) -> int {
    if a == 0 {
        o.0
    } else if a == 1 {
        o.1
    } else {
        o.2
    }
}

/// Where the faces of direction `d` of the voxels of slice `i` lie along the normal
/// axis: on the far side of the voxel for the positive directions (0, 2, 4), on the near
/// side for the negative ones.
pub open spec fn face_plane(d: int, i: int) -> int {
    if d % 2 == 0 {
        i + 1
    } else {
        i
    }
}

/// Vertex `vx` is a corner of the face that quad `q` of slice `i` of direction `d` draws
/// for a chunk whose corner is at `o`: it lies on the slice's face plane, on one end of
/// the quad's column span `u .. u + width` and on one end of its row span
/// `v .. v + height`; its texture coordinates are 0 or the span, and its layer is the
/// quad's id less one.
pub open spec fn is_face_corner(vx: Vertex, d: int, i: int, q: Quad, o: (int, int, int)) -> bool {
    let na = normal_axis(d);
    let ca = column_axis(d);
    let ra = row_axis(d);
    &&& coord(vx.pos, na) == offset_coord(o, na) + face_plane(d, i)
    &&& (coord(vx.pos, ca) == offset_coord(o, ca) + q.u || coord(vx.pos, ca) == offset_coord(o, ca)
        + q.u + q.width)
    &&& (coord(vx.pos, ra) == offset_coord(o, ra) + q.v || coord(vx.pos, ra) == offset_coord(o, ra)
        + q.v + q.height)
    &&& (vx.uv[0] == 0 || vx.uv[0] == q.width)
    &&& (vx.uv[1] == 0 || vx.uv[1] == q.height)
    &&& vx.layer == q.id - 1
}

/// The two vertices sit at different corners of the face of direction `d`.
pub open spec fn other_corner(a: Vertex, b: Vertex, d: int) -> bool {
    coord(a.pos, column_axis(d)) != coord(b.pos, column_axis(d)) || coord(a.pos, row_axis(d))
        != coord(b.pos, row_axis(d))
}

/// The two vertices sit at opposite corners of the face of direction `d`.
pub open spec fn opposite_corner(a: Vertex, b: Vertex, d: int) -> bool {
    coord(a.pos, column_axis(d)) != coord(b.pos, column_axis(d)) && coord(a.pos, row_axis(d))
        != coord(b.pos, row_axis(d))
}

/// Vertices `4 * k .. 4 * k + 4` of `vs` draw face `f` of a chunk whose corner is at
/// `o`: each is a corner of the face's rectangle, no two sit at the same corner, and
/// vertices 0 and 2 (and 1 and 3), which the two triangles share, are opposite corners.
pub open spec fn draws_face(vs: Seq<Vertex>, k: int, f: (int, int, Quad), o: (int, int, int)) -> bool {
    &&& forall|j: int| 0 <= j < 4 ==> is_face_corner(#[trigger] vs[4 * k + j], f.0, f.1, f.2, o)
    &&& forall|j1: int, j2: int|
        0 <= j1 < 4 && 0 <= j2 < 4 && j1 != j2 ==> other_corner(
            #[trigger] vs[4 * k + j1],
            #[trigger] vs[4 * k + j2],
            f.0,
        )
    &&& opposite_corner(vs[4 * k], vs[4 * k + 2], f.0)
    &&& opposite_corner(vs[4 * k + 1], vs[4 * k + 3], f.0)
}

/// Each face of the mesh is the rectangle of its quad, laid on the face plane of its
/// slice: its four vertices are the four corners of the quad's span of columns and
/// rows, each once, and the two triangles share a diagonal, so that they cover exactly
/// the unit faces of the cells that the quad covers.
pub proof fn lemma_mesh_face_geometry(c: Chunk, k: int)
    requires
        offset_in_range(c.pos()),
        0 <= k < mesh_faces(c).len(),
    ensures
        faces_vertices(mesh_faces(c), chunk_offset(c.pos())).len() == 4 * mesh_faces(c).len(),
        draws_face(
            faces_vertices(mesh_faces(c), chunk_offset(c.pos())),
            k,
            mesh_faces(c)[k],
            chunk_offset(c.pos()),
        ),
{
    let fs = mesh_faces(c);
    let o = chunk_offset(c.pos());
    let f = fs[k];
    let (d, i, q) = f;
    lemma_faces_before_cover(c, 6, 0);
    assert(valid_slice(d, i));
    let qs = slice_quads(c, d, i);
    assert(qs.contains(q));
    lemma_slice_partitions(c, d, i);
    let jq = choose|jq: int| 0 <= jq < qs.len() && qs[jq] == q;
    assert(q.width >= 1 && q.height >= 1 && q.u + q.width <= 32 && q.v + q.height <= slice_rows(d)
        && q.id != 0) by {
        assert(qs[jq] == q);
    }
    let vs = faces_vertices(fs, o);
    let fv = face_vertices(f, o);
    assert forall|j: int| 0 <= j < 4 implies vs[4 * k + j] == fv[j] by {
        lemma_faces_vertices_index(fs, o, k, j);
    }
    lemma_faces_vertices_index(fs, o, k, 0);
    assert(fv.len() == 4);
    assert forall|j: int| 0 <= j < 4 implies is_face_corner(#[trigger] vs[4 * k + j], d, i, q, o) by {
        assert(vs[4 * k + j] == fv[j]);
    }
    assert forall|j1: int, j2: int|
        0 <= j1 < 4 && 0 <= j2 < 4 && j1 != j2 implies other_corner(
        #[trigger] vs[4 * k + j1],
        #[trigger] vs[4 * k + j2],
        d,
    ) by {
        assert(vs[4 * k + j1] == fv[j1]);
        assert(vs[4 * k + j2] == fv[j2]);
    }
    assert(vs[4 * k] == fv[0]);
    assert(vs[4 * k + 2] == fv[2]);
    assert(vs[4 * k + 1] == fv[1]);
    assert(vs[4 * k + 3] == fv[3]);
}

} // verus!
