use vstd::prelude::*;

verus! {

/// A rectangle of equal face ids in a face mask: columns `u .. u + width`,
/// rows `v .. v + height`, all holding `id`.
#[derive(Clone, Copy, Debug, PartialEq, Eq)]
pub struct Quad {
    pub u: usize,
    pub v: usize,
    pub width: usize,
    pub height: usize,
    pub id: u16,
}

/// A face mask seen as rows of columns: `g[r][c]` is the face id at row `r`, column `c`
/// (0 where no face is drawn).
pub open spec fn grid_shape(g: Seq<Seq<u16>>, cols: int, rows: int) -> bool {
    &&& g.len() == rows
    &&& forall|r: int| 0 <= r < rows ==> (#[trigger] g[r]).len() == cols
}

/// Cell `(r2, c2)` comes before cell `(r, c)` in row-major scan order.
pub open spec fn scanned_before(r2: int, c2: int, r: int, c: int) -> bool {
    r2 < r || (r2 == r && c2 < c)
}

/// The width of the run of `id` in row `r` that starts at column `c`, counting on from `w`.
pub open spec fn run_width(g: Seq<Seq<u16>>, cols: int, r: int, c: int, id: u16, w: int) -> int
    decreases cols - w,
{
    if 0 <= c && 0 <= w && c + w < cols && g[r][c + w] == id {
        run_width(g, cols, r, c, id, w + 1)
    } else {
        w
    }
}

/// Row `row` holds `id` in every column of `c .. c + w`.
pub open spec fn row_matches(g: Seq<Seq<u16>>, row: int, c: int, w: int, id: u16) -> bool {
    forall|k: int| 0 <= k < w ==> #[trigger] g[row][c + k] == id
}

/// How many rows, counting on from `h`, below row `r` repeat the run `c .. c + w` of `id`.
pub open spec fn run_height(
    g: Seq<Seq<u16>>,
    rows: int,
    r: int,
    c: int,
    w: int,
    id: u16,
    h: int,
) -> int
    decreases rows - h,
{
    if 0 <= r && 0 <= h && r + h < rows && row_matches(g, r + h, c, w, id) {
        run_height(g, rows, r, c, w, id, h + 1)
    } else {
        h
    }
}

/// Cell `(r2, c2)` lies in the rectangle with corner `(r, c)`, `w` columns and `h` rows.
pub open spec fn in_rect(r2: int, c2: int, r: int, c: int, w: int, h: int) -> bool {
    r <= r2 < r + h && c <= c2 < c + w
}

/// The mask with the rectangle at `(r, c)` of `w` columns and `h` rows set to 0.
pub open spec fn clear_rect(g: Seq<Seq<u16>>, r: int, c: int, w: int, h: int) -> Seq<Seq<u16>> {
    Seq::new(
        g.len(),
        |i: int| Seq::new(g[i].len(), |j: int| if in_rect(i, j, r, c, w, h) { 0u16 } else { g[i][j] }),
    )
}

/// The quad with corner `(r, c)`.
pub open spec fn quad_at(r: int, c: int, w: int, h: int, id: u16) -> Quad {
    Quad { u: c as usize, v: r as usize, width: w as usize, height: h as usize, id }
}

/// Greedy meshing of a mask, resuming the row-major scan at `(r, c)`: at each nonzero
/// cell, take the widest run of its id in its row, extend it downward over every
/// following row that repeats the run, emit that rectangle, clear it, and go on.
pub open spec fn greedy(g: Seq<Seq<u16>>, cols: int, rows: int, r: int, c: int) -> Seq<Quad>
    decreases rows - r, cols - c,
{
    if r < 0 || c < 0 || r >= rows {
        Seq::empty()
    } else if c >= cols {
        greedy(g, cols, rows, r + 1, 0)
    } else if g[r][c] == 0 {
        greedy(g, cols, rows, r, c + 1)
    } else {
        let id = g[r][c];
        let w = run_width(g, cols, r, c, id, 1);
        let h = run_height(g, rows, r, c, w, id, 1);
        seq![quad_at(r, c, w, h, id)] + greedy(clear_rect(g, r, c, w, h), cols, rows, r, c + 1)
    }
}

/// The quad covers cell `(r, c)`.
pub open spec fn covers(q: Quad, r: int, c: int) -> bool {
    in_rect(r, c, q.v as int, q.u as int, q.width as int, q.height as int)
}

/// The quads lie inside the mask, each is non-empty and covers only cells holding its id,
/// every nonzero cell is covered, and no cell is covered twice.
pub open spec fn partitions(qs: Seq<Quad>, g: Seq<Seq<u16>>, cols: int, rows: int) -> bool {
    &&& forall|k: int|
        0 <= k < qs.len() ==> {
            &&& (#[trigger] qs[k]).width >= 1
            &&& qs[k].height >= 1
            &&& qs[k].u + qs[k].width <= cols
            &&& qs[k].v + qs[k].height <= rows
            &&& qs[k].id != 0
        }
    &&& forall|k: int, r: int, c: int|
        0 <= k < qs.len() && #[trigger] covers(qs[k], r, c) ==> g[r][c] == qs[k].id
    &&& forall|r: int, c: int|
        0 <= r < rows && 0 <= c < cols && g[r][c] != 0 ==> exists|k: int|
            0 <= k < qs.len() && #[trigger] covers(qs[k], r, c)
    &&& forall|k1: int, k2: int, r: int, c: int|
        0 <= k1 < qs.len() && 0 <= k2 < qs.len() && #[trigger] covers(qs[k1], r, c)
            && #[trigger] covers(qs[k2], r, c) ==> k1 == k2
}

proof fn lemma_run_width(g: Seq<Seq<u16>>, cols: int, r: int, c: int, id: u16, w: int)
    requires
        0 <= c < cols,
        1 <= w,
        c + w <= cols,
        forall|k: int| 0 <= k < w ==> #[trigger] g[r][c + k] == id,
    ensures
        w <= run_width(g, cols, r, c, id, w),
        c + run_width(g, cols, r, c, id, w) <= cols,
        forall|k: int| 0 <= k < run_width(g, cols, r, c, id, w) ==> #[trigger] g[r][c + k] == id,
    decreases cols - w,
{
    if c + w < cols && g[r][c + w] == id {
        assert forall|k: int| 0 <= k < w + 1 implies #[trigger] g[r][c + k] == id by {
            if k < w {
            }
        }
        lemma_run_width(g, cols, r, c, id, w + 1);
    }
}

proof fn lemma_run_height(
    g: Seq<Seq<u16>>,
    rows: int,
    r: int,
    c: int,
    w: int,
    id: u16,
    h: int,
)
    requires
        0 <= r < rows,
        1 <= h,
        r + h <= rows,
        forall|j: int| 0 <= j < h ==> #[trigger] row_matches(g, r + j, c, w, id),
    ensures
        h <= run_height(g, rows, r, c, w, id, h),
        r + run_height(g, rows, r, c, w, id, h) <= rows,
        forall|j: int|
            0 <= j < run_height(g, rows, r, c, w, id, h) ==> #[trigger] row_matches(
                g,
                r + j,
                c,
                w,
                id,
            ),
    decreases rows - h,
{
    if r + h < rows && row_matches(g, r + h, c, w, id) {
        assert forall|j: int| 0 <= j < h + 1 implies #[trigger] row_matches(g, r + j, c, w, id) by {
            if j < h {
            }
        }
        lemma_run_height(g, rows, r, c, w, id, h + 1);
    }
}

/// Greedy meshing, resumed at any scan position where every earlier cell is already
/// clear, partitions the nonzero cells of the mask.
proof fn lemma_greedy_partitions_from(g: Seq<Seq<u16>>, cols: int, rows: int, r: int, c: int)
    requires
        grid_shape(g, cols, rows),
        cols <= usize::MAX,
        rows <= usize::MAX,
        0 <= r,
        0 <= c,
        forall|r2: int, c2: int|
            0 <= r2 < rows && 0 <= c2 < cols && scanned_before(r2, c2, r, c) ==> g[r2][c2] == 0,
    ensures
        partitions(greedy(g, cols, rows, r, c), g, cols, rows),
    decreases rows - r, cols - c,
{
    let qs = greedy(g, cols, rows, r, c);
    if r >= rows {
        assert forall|r2: int, c2: int|
            0 <= r2 < rows && 0 <= c2 < cols && g[r2][c2] != 0 implies exists|k: int|
            0 <= k < qs.len() && #[trigger] covers(qs[k], r2, c2) by {
            assert(scanned_before(r2, c2, r, c));
        }
    } else if c >= cols {
        assert forall|r2: int, c2: int|
            0 <= r2 < rows && 0 <= c2 < cols && scanned_before(r2, c2, r + 1, 0) implies g[r2][c2]
            == 0 by {
            assert(scanned_before(r2, c2, r, c));
        }
        lemma_greedy_partitions_from(g, cols, rows, r + 1, 0);
    } else if g[r][c] == 0 {
        assert forall|r2: int, c2: int|
            0 <= r2 < rows && 0 <= c2 < cols && scanned_before(r2, c2, r, c + 1) implies g[r2][c2]
            == 0 by {
            if !(r2 == r && c2 == c) {
                assert(scanned_before(r2, c2, r, c));
            }
        }
        lemma_greedy_partitions_from(g, cols, rows, r, c + 1);
    } else {
        let id = g[r][c];
        assert(g[r][c + 0] == id);
        lemma_run_width(g, cols, r, c, id, 1);
        let w = run_width(g, cols, r, c, id, 1);
        assert(row_matches(g, r + 0, c, w, id));
        lemma_run_height(g, rows, r, c, w, id, 1);
        let h = run_height(g, rows, r, c, w, id, 1);
        let g2 = clear_rect(g, r, c, w, h);
        let q = quad_at(r, c, w, h, id);
        let rest = greedy(g2, cols, rows, r, c + 1);
        assert(qs == seq![q] + rest);
        // The rectangle holds `id` throughout.
        assert forall|r2: int, c2: int| #[trigger] covers(q, r2, c2) implies g[r2][c2] == id by {
            assert(row_matches(g, r + (r2 - r), c, w, id));
            assert(g[r + (r2 - r)][c + (c2 - c)] == id);
        }
        assert(grid_shape(g2, cols, rows));
        assert forall|r2: int, c2: int|
            0 <= r2 < rows && 0 <= c2 < cols && scanned_before(r2, c2, r, c + 1) implies g2[r2][c2]
            == 0 by {
            if !(r2 == r && c2 == c) {
                assert(scanned_before(r2, c2, r, c));
            }
        }
        lemma_greedy_partitions_from(g2, cols, rows, r, c + 1);
        // A cell covered by a later quad is nonzero in the cleared mask, so it lies outside
        // the rectangle and still holds its original id.
        assert forall|k: int, r2: int, c2: int|
            0 <= k < rest.len() && #[trigger] covers(rest[k], r2, c2) implies !covers(q, r2, c2)
            && g[r2][c2] == rest[k].id by {
            assert(g2[r2][c2] == rest[k].id);
        }
        assert forall|k: int|
            0 <= k < qs.len() implies {
            &&& (#[trigger] qs[k]).width >= 1
            &&& qs[k].height >= 1
            &&& qs[k].u + qs[k].width <= cols
            &&& qs[k].v + qs[k].height <= rows
            &&& qs[k].id != 0
        } by {
            if k > 0 {
                assert(qs[k] == rest[k - 1]);
            }
        }
        assert forall|k: int, r2: int, c2: int|
            0 <= k < qs.len() && #[trigger] covers(qs[k], r2, c2) implies g[r2][c2] == qs[k].id by {
            if k > 0 {
                assert(qs[k] == rest[k - 1]);
                assert(covers(rest[k - 1], r2, c2));
            }
        }
        assert forall|r2: int, c2: int|
            0 <= r2 < rows && 0 <= c2 < cols && g[r2][c2] != 0 implies exists|k: int|
            0 <= k < qs.len() && #[trigger] covers(qs[k], r2, c2) by {
            if covers(q, r2, c2) {
                assert(covers(qs[0], r2, c2));
            } else {
                assert(g2[r2][c2] == g[r2][c2]);
                let k = choose|k: int| 0 <= k < rest.len() && #[trigger] covers(rest[k], r2, c2);
                assert(qs[k + 1] == rest[k]);
                assert(covers(qs[k + 1], r2, c2));
            }
        }
        assert forall|k1: int, k2: int, r2: int, c2: int|
            0 <= k1 < qs.len() && 0 <= k2 < qs.len() && #[trigger] covers(qs[k1], r2, c2)
                && #[trigger] covers(qs[k2], r2, c2) implies k1 == k2 by {
            if k1 > 0 {
                assert(qs[k1] == rest[k1 - 1]);
                assert(covers(rest[k1 - 1], r2, c2));
            }
            if k2 > 0 {
                assert(qs[k2] == rest[k2 - 1]);
                assert(covers(rest[k2 - 1], r2, c2));
            }
        }
    }
}

/// Greedy meshing partitions the nonzero cells of a mask into rectangles of equal id:
/// every nonzero cell lies in exactly one quad, and each quad covers only cells that
/// hold its id.
pub proof fn lemma_greedy_partitions(g: Seq<Seq<u16>>, cols: int, rows: int)
    requires
        grid_shape(g, cols, rows),
        cols <= usize::MAX,
        rows <= usize::MAX,
    ensures
        partitions(greedy(g, cols, rows, 0, 0), g, cols, rows),
{
    lemma_greedy_partitions_from(g, cols, rows, 0, 0);
}


/// Cell `(r, c)` cannot be added to quad `k`: it does not hold the quad's id, or an
/// earlier quad already covers it.
pub open spec fn blocked(qs: Seq<Quad>, g: Seq<Seq<u16>>, k: int, r: int, c: int) -> bool {
    g[r][c] != qs[k].id || exists|k2: int| 0 <= k2 < k && #[trigger] covers(qs[k2], r, c)
}

/// Quad `k` cannot grow by a row: it reaches the last row, or some cell of the row just
/// below it, within its columns, is blocked.
pub open spec fn stops_below(qs: Seq<Quad>, g: Seq<Seq<u16>>, rows: int, k: int) -> bool {
    let q = qs[k];
    q.v + q.height == rows || exists|j: int|
        0 <= j < q.width && #[trigger] blocked(qs, g, k, q.v + q.height, q.u + j)
}

/// Quad `k` cannot grow by a column along its first row: it reaches the last column, or
/// the cell just right of its first row is blocked.
pub open spec fn stops_right(qs: Seq<Quad>, g: Seq<Seq<u16>>, cols: int, k: int) -> bool {
    let q = qs[k];
    q.u + q.width == cols || blocked(qs, g, k, q.v as int, q.u + q.width)
}

proof fn lemma_run_width_stops(g: Seq<Seq<u16>>, cols: int, r: int, c: int, id: u16, w: int)
    requires
        0 <= c,
        0 <= w,
    ensures
        !(c + run_width(g, cols, r, c, id, w) < cols && g[r][c + run_width(g, cols, r, c, id, w)]
            == id),
    decreases cols - w,
{
    if c + w < cols && g[r][c + w] == id {
        lemma_run_width_stops(g, cols, r, c, id, w + 1);
    }
}

proof fn lemma_run_height_stops(
    g: Seq<Seq<u16>>,
    rows: int,
    r: int,
    c: int,
    w: int,
    id: u16,
    h: int,
)
    requires
        0 <= r,
        0 <= h,
    ensures
        !(r + run_height(g, rows, r, c, w, id, h) < rows && row_matches(
            g,
            r + run_height(g, rows, r, c, w, id, h),
            c,
            w,
            id,
        )),
    decreases rows - h,
{
    if r + h < rows && row_matches(g, r + h, c, w, id) {
        lemma_run_height_stops(g, rows, r, c, w, id, h + 1);
    }
}

proof fn lemma_greedy_maximal_from(g: Seq<Seq<u16>>, cols: int, rows: int, r: int, c: int)
    requires
        grid_shape(g, cols, rows),
        cols <= usize::MAX,
        rows <= usize::MAX,
        0 <= r,
        0 <= c,
    ensures
        forall|k: int|
            0 <= k < greedy(g, cols, rows, r, c).len() ==> {
                let q = #[trigger] greedy(g, cols, rows, r, c)[k];
                &&& q.width >= 1
                &&& q.height >= 1
                &&& q.u + q.width <= cols
                &&& q.v + q.height <= rows
            },
        forall|k: int|
            0 <= k < greedy(g, cols, rows, r, c).len() ==> #[trigger] stops_below(
                greedy(g, cols, rows, r, c),
                g,
                rows,
                k,
            ),
        forall|k: int|
            0 <= k < greedy(g, cols, rows, r, c).len() ==> #[trigger] stops_right(
                greedy(g, cols, rows, r, c),
                g,
                cols,
                k,
            ),
    decreases rows - r, cols - c,
{
    let qs = greedy(g, cols, rows, r, c);
    if r >= rows {
    } else if c >= cols {
        lemma_greedy_maximal_from(g, cols, rows, r + 1, 0);
        assert(qs == greedy(g, cols, rows, r + 1, 0));
    } else if g[r][c] == 0 {
        lemma_greedy_maximal_from(g, cols, rows, r, c + 1);
        assert(qs == greedy(g, cols, rows, r, c + 1));
    } else {
        let id = g[r][c];
        assert(g[r][c + 0] == id);
        lemma_run_width(g, cols, r, c, id, 1);
        lemma_run_width_stops(g, cols, r, c, id, 1);
        let w = run_width(g, cols, r, c, id, 1);
        assert(row_matches(g, r + 0, c, w, id));
        lemma_run_height(g, rows, r, c, w, id, 1);
        lemma_run_height_stops(g, rows, r, c, w, id, 1);
        let h = run_height(g, rows, r, c, w, id, 1);
        let g2 = clear_rect(g, r, c, w, h);
        let q = quad_at(r, c, w, h, id);
        let rest = greedy(g2, cols, rows, r, c + 1);
        assert(qs == seq![q] + rest);
        assert(qs[0] == q);
        assert(grid_shape(g2, cols, rows));
        lemma_greedy_maximal_from(g2, cols, rows, r, c + 1);
        // A cell blocked for a later quad in the cleared mask is blocked for it here:
        // either the first quad covers it, or it holds the same id in both masks.
        assert forall|k: int, r2: int, c2: int|
            1 <= k < qs.len() && 0 <= r2 < rows && 0 <= c2 < cols && blocked(
                rest,
                g2,
                k - 1,
                r2,
                c2,
            ) implies #[trigger] blocked(qs, g, k, r2, c2) by {
            assert(qs[k] == rest[k - 1]);
            if covers(q, r2, c2) {
                assert(covers(qs[0], r2, c2));
            } else if g2[r2][c2] != rest[k - 1].id {
                assert(g2[r2][c2] == g[r2][c2]);
            } else {
                let k2 = choose|k2: int| 0 <= k2 < k - 1 && #[trigger] covers(rest[k2], r2, c2);
                assert(qs[k2 + 1] == rest[k2]);
                assert(covers(qs[k2 + 1], r2, c2));
            }
        }
        assert forall|k: int| 0 <= k < qs.len() implies {
            let q = #[trigger] qs[k];
            &&& q.width >= 1
            &&& q.height >= 1
            &&& q.u + q.width <= cols
            &&& q.v + q.height <= rows
        } by {
            if k > 0 {
                assert(qs[k] == rest[k - 1]);
            }
        }
        assert forall|k: int| 0 <= k < qs.len() implies stops_below(qs, g, rows, k)
            && stops_right(qs, g, cols, k) by {
            if k == 0 {
                if r + h < rows {
                    assert(!row_matches(g, r + h, c, w, id));
                    let j = choose|j: int| 0 <= j < w && #[trigger] g[r + h][c + j] != id;
                    assert(blocked(qs, g, 0, q.v + q.height, q.u + j));
                }
                if c + w < cols {
                    assert(blocked(qs, g, 0, q.v as int, q.u + q.width));
                }
            } else {
                let p = rest[k - 1];
                assert(qs[k] == p);
                assert(stops_below(rest, g2, rows, k - 1));
                assert(stops_right(rest, g2, cols, k - 1));
                if p.v + p.height != rows {
                    let j = choose|j: int|
                        0 <= j < p.width && #[trigger] blocked(rest, g2, k - 1, p.v + p.height, p.u + j);
                    assert(blocked(qs, g, k, p.v + p.height, p.u + j));
                }
                if p.u + p.width != cols {
                    assert(blocked(rest, g2, k - 1, p.v as int, p.u + p.width));
                    assert(blocked(qs, g, k, p.v as int, p.u + p.width));
                }
            }
        }
    }
}

/// Each quad of greedy meshing is as large as the scan allows: it cannot grow by a row
/// (it reaches the last row, or some cell of the row below it, within its columns, holds
/// another id or lies in an earlier quad) nor along its first row by a column (it
/// reaches the last column, or the next cell holds another id or lies in an earlier
/// quad). Cells outside the quad's columns play no part.
pub proof fn lemma_greedy_maximal(g: Seq<Seq<u16>>, cols: int, rows: int)
    requires
        grid_shape(g, cols, rows),
        cols <= usize::MAX,
        rows <= usize::MAX,
    ensures
        forall|k: int|
            0 <= k < greedy(g, cols, rows, 0, 0).len() ==> #[trigger] stops_below(
                greedy(g, cols, rows, 0, 0),
                g,
                rows,
                k,
            ),
        forall|k: int|
            0 <= k < greedy(g, cols, rows, 0, 0).len() ==> #[trigger] stops_right(
                greedy(g, cols, rows, 0, 0),
                g,
                cols,
                k,
            ),
{
    lemma_greedy_maximal_from(g, cols, rows, 0, 0);
}

/// The number of nonzero cells at or after `(r, c)` in row-major scan order.
pub open spec fn nonzero_from(g: Seq<Seq<u16>>, cols: int, rows: int, r: int, c: int) -> int
    decreases rows - r, cols - c,
{
    if r < 0 || c < 0 || r >= rows {
        0
    } else if c >= cols {
        nonzero_from(g, cols, rows, r + 1, 0)
    } else {
        (if g[r][c] != 0 {
            1int
        } else {
            0int
        }) + nonzero_from(g, cols, rows, r, c + 1)
    }
}

proof fn lemma_nonzero_from_mono(
    g: Seq<Seq<u16>>,
    g2: Seq<Seq<u16>>,
    cols: int,
    rows: int,
    r: int,
    c: int,
)
    requires
        forall|r2: int, c2: int|
            0 <= r2 < rows && 0 <= c2 < cols && g2[r2][c2] != 0 ==> g[r2][c2] != 0,
    ensures
        nonzero_from(g2, cols, rows, r, c) <= nonzero_from(g, cols, rows, r, c),
    decreases rows - r, cols - c,
{
    if r < 0 || c < 0 || r >= rows {
    } else if c >= cols {
        lemma_nonzero_from_mono(g, g2, cols, rows, r + 1, 0);
    } else {
        lemma_nonzero_from_mono(g, g2, cols, rows, r, c + 1);
    }
}

proof fn lemma_greedy_at_most_nonzero_from(g: Seq<Seq<u16>>, cols: int, rows: int, r: int, c: int)
    requires
        grid_shape(g, cols, rows),
    ensures
        greedy(g, cols, rows, r, c).len() <= nonzero_from(g, cols, rows, r, c),
    decreases rows - r, cols - c,
{
    if r < 0 || c < 0 || r >= rows {
    } else if c >= cols {
        lemma_greedy_at_most_nonzero_from(g, cols, rows, r + 1, 0);
    } else if g[r][c] == 0 {
        lemma_greedy_at_most_nonzero_from(g, cols, rows, r, c + 1);
    } else {
        let id = g[r][c];
        let w = run_width(g, cols, r, c, id, 1);
        let h = run_height(g, rows, r, c, w, id, 1);
        let g2 = clear_rect(g, r, c, w, h);
        assert(grid_shape(g2, cols, rows));
        lemma_greedy_at_most_nonzero_from(g2, cols, rows, r, c + 1);
        lemma_nonzero_from_mono(g, g2, cols, rows, r, c + 1);
    }
}

/// Greedy meshing never makes more quads than the mask has nonzero cells: it draws at
/// most as many faces as drawing one quad per cell would.
pub proof fn lemma_greedy_at_most_nonzero(g: Seq<Seq<u16>>, cols: int, rows: int)
    requires
        grid_shape(g, cols, rows),
    ensures
        greedy(g, cols, rows, 0, 0).len() <= nonzero_from(g, cols, rows, 0, 0),
{
    lemma_greedy_at_most_nonzero_from(g, cols, rows, 0, 0);
}

/// The mask stored flat, 32 cells per row, seen as rows of columns.
pub open spec fn mask_grid(flat: Seq<u16>, rows: int) -> Seq<Seq<u16>> {
    Seq::new(rows as nat, |r: int| Seq::new(32, |c: int| flat[32 * r + c]))
}

/// Greedy meshing emits at most one quad per cell still to be scanned.
pub proof fn lemma_greedy_len(g: Seq<Seq<u16>>, rows: int, r: int, c: int)
    requires
        0 <= r <= rows,
        0 <= c <= 32,
        r < rows || c == 0,
    ensures
        greedy(g, 32, rows, r, c).len() <= 32 * (rows - r) - c,
    decreases rows - r, 32 - c,
{
    if r >= rows {
    } else if c >= 32 {
        lemma_greedy_len(g, rows, r + 1, 0);
    } else if g[r][c] == 0 {
        lemma_greedy_len(g, rows, r, c + 1);
    } else {
        let id = g[r][c];
        let w = run_width(g, 32, r, c, id, 1);
        let h = run_height(g, rows, r, c, w, id, 1);
        lemma_greedy_len(clear_rect(g, r, c, w, h), rows, r, c + 1);
    }
}

/// Row `row` of the flat mask holds `id` in every column of `u .. u + width`.
fn row_run_matches(mask: &Vec<u16>, rows: usize, row: usize, u: usize, width: usize, id: u16) -> (b: bool)
    requires
        mask@.len() == 32 * rows,
        row < rows,
        rows <= 256,
        u + width <= 32,
    ensures
        b == row_matches(mask_grid(mask@, rows as int), row as int, u as int, width as int, id),
{
    let ghost g = mask_grid(mask@, rows as int);
    let mut w: usize = 0;
    while w < width
        invariant
            w <= width,
            u + width <= 32,
            row < rows,
            rows <= 256,
            mask@.len() == 32 * rows,
            g == mask_grid(mask@, rows as int),
            forall|k: int| 0 <= k < w ==> #[trigger] g[row as int][u + k] == id,
        decreases width - w,
    {
        if mask[row * 32 + (u + w)] != id {
            assert(g[row as int][u + w] != id);
            return false;
        }
        w += 1;
    }
    true
}

/// Sets the rectangle at row `v`, column `u`, of `width` columns and `height` rows to 0.
fn clear_quad(mask: &mut Vec<u16>, rows: usize, u: usize, v: usize, width: usize, height: usize)
    requires
        old(mask)@.len() == 32 * rows,
        u + width <= 32,
        v + height <= rows,
        rows <= 256,
    ensures
        final(mask)@.len() == old(mask)@.len(),
        forall|r: int, c: int|
            0 <= r < rows && 0 <= c < 32 ==> #[trigger] final(mask)@[32 * r + c] == if in_rect(
                r,
                c,
                v as int,
                u as int,
                width as int,
                height as int,
            ) {
                0
            } else {
                old(mask)@[32 * r + c]
            },
{
    let ghost before = mask@;
    let mut hv: usize = 0;
    while hv < height
        invariant
            hv <= height,
            u + width <= 32,
            v + height <= rows,
            rows <= 256,
            mask@.len() == before.len(),
            before.len() == 32 * rows,
            forall|r: int, c: int|
                0 <= r < rows && 0 <= c < 32 ==> #[trigger] mask@[32 * r + c] == if in_rect(
                    r,
                    c,
                    v as int,
                    u as int,
                    width as int,
                    hv as int,
                ) {
                    0
                } else {
                    before[32 * r + c]
                },
        decreases height - hv,
    {
        let mut wu: usize = 0;
        while wu < width
            invariant
                hv < height,
                wu <= width,
                u + width <= 32,
                v + height <= rows,
                rows <= 256,
                mask@.len() == before.len(),
                before.len() == 32 * rows,
                forall|r: int, c: int|
                    0 <= r < rows && 0 <= c < 32 ==> #[trigger] mask@[32 * r + c] == if in_rect(
                        r,
                        c,
                        v as int,
                        u as int,
                        width as int,
                        hv as int,
                    ) || (r == v + hv && u <= c < u + wu) {
                        0
                    } else {
                        before[32 * r + c]
                    },
            decreases width - wu,
        {
            mask.set((v + hv) * 32 + (u + wu), 0);
            wu += 1;
        }
        hv += 1;
    }
}

/// Greedy meshing of a face mask of `rows` rows of 32 cells, stored flat.
pub fn greedy_quads(mask: Vec<u16>, rows: usize) -> (qs: Vec<Quad>)
    requires
        mask@.len() == 32 * rows,
        rows <= 256,
    ensures
        qs@ == greedy(mask_grid(mask@, rows as int), 32, rows as int, 0, 0),
        qs@.len() <= 32 * rows,
        partitions(qs@, mask_grid(mask@, rows as int), 32, rows as int),
        forall|k: int|
            0 <= k < qs@.len() ==> #[trigger] stops_below(
                qs@,
                mask_grid(mask@, rows as int),
                rows as int,
                k,
            ),
        forall|k: int|
            0 <= k < qs@.len() ==> #[trigger] stops_right(qs@, mask_grid(mask@, rows as int), 32, k),
{
    proof {
        assert(grid_shape(mask_grid(mask@, rows as int), 32, rows as int));
        lemma_greedy_partitions(mask_grid(mask@, rows as int), 32, rows as int);
        lemma_greedy_maximal(mask_grid(mask@, rows as int), 32, rows as int);
    }
    let mut mask = mask;
    let ghost target = greedy(mask_grid(mask@, rows as int), 32, rows as int, 0, 0);
    proof {
        lemma_greedy_len(mask_grid(mask@, rows as int), rows as int, 0, 0);
    }
    let mut quads: Vec<Quad> = Vec::new();
    let mut v: usize = 0;
    while v < rows
        invariant
            v <= rows,
            rows <= 256,
            mask@.len() == 32 * rows,
            quads@ + greedy(mask_grid(mask@, rows as int), 32, rows as int, v as int, 0) == target,
        decreases rows - v,
    {
        let mut u: usize = 0;
        while u < 32
            invariant
                u <= 32,
                v < rows,
                rows <= 256,
                mask@.len() == 32 * rows,
                quads@ + greedy(mask_grid(mask@, rows as int), 32, rows as int, v as int, u as int)
                    == target,
            decreases 32 - u,
        {
            let ghost g = mask_grid(mask@, rows as int);
            let voxel = mask[v * 32 + u];
            assert(voxel == g[v as int][u as int]);
            if voxel != 0 {
                // Widest run of `voxel` in this row, starting at `u`.
                let mut width: usize = 1;
                while u + width < 32 && mask[v * 32 + (u + width)] == voxel
                    invariant
                        1 <= width,
                        u < 32,
                        u + width <= 32,
                        v < rows,
                        rows <= 256,
                        mask@.len() == 32 * rows,
                        g == mask_grid(mask@, rows as int),
                        run_width(g, 32, v as int, u as int, voxel, width as int) == run_width(
                            g,
                            32,
                            v as int,
                            u as int,
                            voxel,
                            1,
                        ),
                    decreases 32 - width,
                {
                    width += 1;
                }
                assert(run_width(g, 32, v as int, u as int, voxel, 1) == width);
                // Extend it downward over every following row that repeats it.
                let mut height: usize = 1;
                while v + height < rows && row_run_matches(&mask, rows, v + height, u, width, voxel)
                    invariant
                        1 <= height,
                        v + height <= rows,
                        rows <= 256,
                        u + width <= 32,
                        mask@.len() == 32 * rows,
                        g == mask_grid(mask@, rows as int),
                        run_height(g, rows as int, v as int, u as int, width as int, voxel, height as int)
                            == run_height(
                            g,
                            rows as int,
                            v as int,
                            u as int,
                            width as int,
                            voxel,
                            1,
                        ),
                    decreases rows - height,
                {
                    height += 1;
                }
                assert(run_height(g, rows as int, v as int, u as int, width as int, voxel, 1) == height);
                clear_quad(&mut mask, rows, u, v, width, height);
                assert(mask_grid(mask@, rows as int) =~~= clear_rect(
                    g,
                    v as int,
                    u as int,
                    width as int,
                    height as int,
                ));
                let q = Quad { u, v, width, height, id: voxel };
                let ghost before = quads@;
                quads.push(q);
                assert(quads@ + greedy(mask_grid(mask@, rows as int), 32, rows as int, v as int, u + 1)
                    =~= before + (seq![q] + greedy(
                    mask_grid(mask@, rows as int),
                    32,
                    rows as int,
                    v as int,
                    u + 1,
                )));
            }
            u += 1;
        }
        v += 1;
    }
    quads
}

} // verus!
