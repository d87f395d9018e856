use vstd::prelude::*;

verus! {

/// Width and depth of a chunk, in voxels (the X and Z extents).
pub const CHUNK_SIZE: usize = 32;

/// Height of a chunk, in voxels (the Y extent).
pub const CHUNK_HEIGHT: usize = 256;

/// Number of voxels in a chunk: `CHUNK_SIZE * CHUNK_HEIGHT * CHUNK_SIZE`.
pub const CHUNK_VOLUME: usize = 262144;

/// Voxel id of an empty (air) cell.
pub const AIR: u16 = 0;

/// Voxel id of dirt.
pub const DIRT: u16 = 1;

/// Voxel id of grass.
pub const GRASS: u16 = 2;

/// Integer coordinates of a chunk in the grid of chunks.
#[derive(Clone, Copy, Debug, PartialEq, Eq, Hash)]
pub struct ChunkPos {
    pub x: i32,
    pub y: i32,
    pub z: i32,
}

impl ChunkPos {
    pub fn new(x: i32, y: i32, z: i32) -> (p: ChunkPos)
        ensures
            p.x == x,
            p.y == y,
            p.z == z,
    {
        ChunkPos { x, y, z }
    }
}

/// Whether `(x, y, z)` lies inside a chunk.
pub open spec fn in_chunk(x: int, y: int, z: int) -> bool {
    &&& 0 <= x < CHUNK_SIZE
    &&& 0 <= y < CHUNK_HEIGHT
    &&& 0 <= z < CHUNK_SIZE
}

/// Linear index of a voxel: x varies fastest, then z, then y.
pub open spec fn voxel_index(x: int, y: int, z: int) -> int {
    x + z * 32 + y * 1024
}

/// A column of `CHUNK_SIZE x CHUNK_HEIGHT x CHUNK_SIZE` voxel ids, stored flat.
pub struct Chunk {
    position: ChunkPos,
    data: Vec<u16>,
}

impl Chunk {
    /// The chunk's storage has exactly one cell per voxel.
    pub closed spec fn wf(&self) -> bool {
        self.data@.len() == CHUNK_VOLUME
    }

    /// Where the chunk stands in the grid of chunks.
    pub closed spec fn pos(&self) -> ChunkPos {
        self.position
    }

    /// The stored cell at linear index `i`.
    pub closed spec fn cell(&self, i: int) -> u16 {
        self.data@[i]
    }

    /// The voxel id at `(x, y, z)`; every position outside the chunk reads as air.
    pub open spec fn voxel(&self, x: int, y: int, z: int) -> u16 {
        if in_chunk(x, y, z) {
            self.cell(voxel_index(x, y, z))
        } else {
            0
        }
    }

    /// An empty chunk (all air) at grid position `pos`.
    pub fn new(pos: ChunkPos) -> (c: Chunk)
        ensures
            c.wf(),
            c.pos() == pos,
            forall|x: int, y: int, z: int| #[trigger] c.voxel(x, y, z) == 0,
    {
        let data: Vec<u16> = vec![0u16; CHUNK_VOLUME];
        let c = Chunk { position: pos, data };
        assert forall|x: int, y: int, z: int| #[trigger] c.voxel(x, y, z) == 0 by {
            if in_chunk(x, y, z) {
                assert(c.data@[voxel_index(x, y, z)] == 0u16);
            }
        }
        c
    }

    /// Where the chunk stands in the grid of chunks.
    pub fn position(&self) -> (p: ChunkPos)
        ensures
            p == self.pos(),
    {
        self.position
    }

    /// The voxel id at `(x, y, z)`, or air (0) when the position lies outside the chunk.
    pub fn get_voxel(&self, x: usize, y: usize, z: usize) -> (id: u16)
        requires
            self.wf(),
        ensures
            id == self.voxel(x as int, y as int, z as int),
            !in_chunk(x as int, y as int, z as int) ==> id == 0,
    {
        if x >= CHUNK_SIZE || y >= CHUNK_HEIGHT || z >= CHUNK_SIZE {
            return 0;
        }
        self.data[x + (z * CHUNK_SIZE) + (y * CHUNK_SIZE * CHUNK_SIZE)]
    }

    /// Stores `id` at `(x, y, z)`; a position outside the chunk leaves it unchanged.
    pub fn set_voxel(&mut self, x: usize, y: usize, z: usize, id: u16)
        requires
            old(self).wf(),
        ensures
            final(self).wf(),
            final(self).pos() == old(self).pos(),
            forall|a: int, b: int, c: int|
                #[trigger] final(self).voxel(a, b, c) == if a == x && b == y && c == z && in_chunk(
                    a,
                    b,
                    c,
                ) {
                    id
                } else {
                    old(self).voxel(a, b, c)
                },
    {
        if x < CHUNK_SIZE && y < CHUNK_HEIGHT && z < CHUNK_SIZE {
            let i = x + (z * CHUNK_SIZE) + (y * CHUNK_SIZE * CHUNK_SIZE);
            self.data.set(i, id);
        }
    }

    /// Fills the column at `(x, z)` from the bottom up to `height` voxels: grass on top,
    /// dirt below; the part of the column above the chunk is dropped.
    pub fn fill_column(&mut self, x: usize, z: usize, height: usize)
        requires
            old(self).wf(),
        ensures
            final(self).wf(),
            final(self).pos() == old(self).pos(),
            forall|a: int, b: int, c: int|
                #[trigger] final(self).voxel(a, b, c) == if a == x && c == z && in_chunk(a, b, c)
                    && b < height {
                    if b == height - 1 {
                        GRASS
                    } else {
                        DIRT
                    }
                } else {
                    old(self).voxel(a, b, c)
                },
    {
        let ghost start = *self;
        let mut y: usize = 0;
        while y < height
            invariant
                y <= height,
                self.wf(),
                self.pos() == start.pos(),
                forall|a: int, b: int, c: int|
                    #[trigger] self.voxel(a, b, c) == if a == x && c == z && in_chunk(a, b, c) && b
                        < y {
                        if b == height - 1 {
                            GRASS
                        } else {
                            DIRT
                        }
                    } else {
                        start.voxel(a, b, c)
                    },
            decreases height - y,
        {
            let id = if y == height - 1 {
                GRASS
            } else {
                DIRT
            };
            self.set_voxel(x, y, z, id);
            y += 1;
        }
    }
}

/// The positions of a square of `n` by `n` chunks at height 0, listed with `x` outer and
/// `z` inner (none when `n` is not positive).
pub open spec fn chunk_grid(n: int) -> Seq<ChunkPos> {
    if n <= 0 {
        Seq::empty()
    } else {
        Seq::new((n * n) as nat, |k: int| ChunkPos { x: (k / n) as i32, y: 0, z: (k % n) as i32 })
    }
}

/// The positions of a square of `n` by `n` chunks at height 0, `x` outer and `z` inner.
pub fn grid_positions(n: i32) -> (ps: Vec<ChunkPos>)
    ensures
        ps@ == chunk_grid(n as int),
{
    let mut ps: Vec<ChunkPos> = Vec::new();
    if n <= 0 {
        return ps;
    }
    let mut cx: i32 = 0;
    while cx < n
        invariant
            0 <= cx <= n,
            ps@.len() == cx * n,
            forall|k: int| 0 <= k < ps@.len() ==> #[trigger] ps@[k] == chunk_grid(n as int)[k],
        decreases n - cx,
    {
        let mut cz: i32 = 0;
        while cz < n
            invariant
                0 <= cx < n,
                0 <= cz <= n,
                ps@.len() == cx * n + cz,
                forall|k: int| 0 <= k < ps@.len() ==> #[trigger] ps@[k] == chunk_grid(n as int)[k],
            decreases n - cz,
        {
            proof {
                let k = cx * n + cz;
                assert(k / (n as int) == cx && k % (n as int) == cz) by (nonlinear_arith)
                    requires
                        k == cx * n + cz,
                        0 <= cz < n,
                        0 <= cx,
                ;
                assert(0 <= k < n * n) by (nonlinear_arith)
                    requires
                        k == cx * n + cz,
                        0 <= cz < n,
                        0 <= cx < n,
                ;
            }
            ps.push(ChunkPos::new(cx, 0, cz));
            cz += 1;
        }
        proof {
            assert(ps@.len() == (cx + 1) * n) by (nonlinear_arith)
                requires
                    ps@.len() == cx * n + n,
            ;
        }
        cx += 1;
    }
    assert(ps@ =~= chunk_grid(n as int));
    ps
}

} // verus!
