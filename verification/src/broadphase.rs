//! The collision broad phase of the sandbox: hearts are sorted into a grid
//! of square cells, and each heart is tested against the later hearts of
//! its own cell and of the cells to its right, below, and below right.

use vstd::prelude::*;

verus! {

/// The cell coordinate of a heart: its raw coordinate, clamped to the grid.
pub fn clamp_cell(raw: usize, cells: usize) -> (c: usize)
    requires
        cells >= 1,
    ensures
        c == (if raw < cells - 1 { raw } else { (cells - 1) as usize }),
{
    if raw < cells - 1 {
        raw
    } else {
        cells - 1
    }
}

/// Index of the cell `(x, y)` in a grid `w` cells wide, row after row.
pub open spec fn cell_index(c: (usize, usize), w: nat) -> int {
    c.1 * w + c.0
}

/// The hearts among the first `n` whose cell has index `k`, in order.
pub open spec fn members(cells: Seq<(usize, usize)>, w: nat, k: int, n: int) -> Seq<usize>
    decreases n,
{
    if n <= 0 {
        seq![]
    } else {
        members(cells, w, k, n - 1) + if cell_index(cells[n - 1], w) == k {
            seq![(n - 1) as usize]
        } else {
            seq![]
        }
    }
}

/// Every cell lies in a `w` by `h` grid.
pub open spec fn cells_in_grid(cells: Seq<(usize, usize)>, w: nat, h: nat) -> bool {
    forall|i: int| 0 <= i < cells.len() ==> #[trigger] cells[i].0 < w && cells[i].1 < h
}

/// The buckets of the grid, as sequences.
pub open spec fn buckets(grid: Seq<Vec<usize>>) -> Seq<Seq<usize>> {
    grid.map_values(|b: Vec<usize>| b@)
}

/// The grid holds, for each cell, the hearts in it in increasing order.
pub open spec fn is_grid_of(grid: Seq<Seq<usize>>, cells: Seq<(usize, usize)>, w: nat, h: nat) -> bool {
    &&& grid.len() == w * h
    &&& forall|k: int| 0 <= k < w * h ==> #[trigger] grid[k] == members(cells, w, k, cells.len() as int)
}

/// Sorts the hearts, given by their cells, into a `w` by `h` grid of buckets.
pub fn build_grid(cells: &Vec<(usize, usize)>, w: usize, h: usize) -> (grid: Vec<Vec<usize>>)
    requires
        w * h <= usize::MAX,
        cells_in_grid(cells@, w as nat, h as nat),
    ensures
        is_grid_of(buckets(grid@), cells@, w as nat, h as nat),
{
    let total: usize = w * h;
    let mut grid: Vec<Vec<usize>> = Vec::new();
    while grid.len() < total
        invariant
            grid.len() <= total == w * h,
            forall|k: int| 0 <= k < grid.len() ==> (#[trigger] grid@[k])@ == Seq::<usize>::empty(),
        decreases total - grid.len(),
    {
        grid.push(Vec::new());
    }
    let mut i: usize = 0;
    while i < cells.len()
        invariant
            i <= cells.len(),
            grid.len() == total == w * h,
            w * h <= usize::MAX,
            cells_in_grid(cells@, w as nat, h as nat),
            forall|k: int|
                0 <= k < total ==> (#[trigger] grid@[k])@ == members(
                    cells@,
                    w as nat,
                    k,
                    i as int,
                ),
        decreases cells.len() - i,
    {
        let (x, y) = cells[i];
        assert(cells@[i as int].0 < w && cells@[i as int].1 < h);
        proof {
            assert(y * w + x < w * h) by (nonlinear_arith)
                requires
                    x < w,
                    y < h,
            ;
        }
        let k: usize = y * w + x;
        let ghost old_grid = grid@;
        grid[k].push(i);
        proof {
            assert forall|kk: int| 0 <= kk < total implies (#[trigger] grid@[kk])@ == members(
                cells@,
                w as nat,
                kk,
                i + 1,
            ) by {
                if kk == k {
                    assert(grid@[kk]@ =~= old_grid[kk]@ + seq![i]);
                } else {
                    assert(grid@[kk] == old_grid[kk]);
                    assert(members(cells@, w as nat, kk, i + 1) =~= members(
                        cells@,
                        w as nat,
                        kk,
                        i as int,
                    ));
                }
            }
        }
        i = i + 1;
    }
    assert(buckets(grid@).len() == grid@.len());
    grid
}

/// The hearts of `s` with a higher number than `i`, in order.
pub open spec fn above(s: Seq<usize>, i: usize) -> Seq<usize>
    decreases s.len(),
{
    if s.len() == 0 {
        seq![]
    } else {
        above(s.drop_last(), i) + if s.last() > i {
            seq![s.last()]
        } else {
            seq![]
        }
    }
}

/// The hearts to test against heart `i` from the cell `(x + dx, y + dy)`;
/// none when that cell is outside the grid.
pub open spec fn neighbour_part(
    grid: Seq<Seq<usize>>,
    w: nat,
    h: nat,
    x: int,
    y: int,
    dx: int,
    dy: int,
    i: usize,
) -> Seq<usize> {
    if x + dx < w && y + dy < h {
        above(grid[(y + dy) * w + x + dx], i)
    } else {
        seq![]
    }
}

/// The hearts to test against heart `i` in cell `(x, y)`: from its own
/// cell, the cell to the right, the cell below, and the cell below right,
/// in that order, only those numbered above `i`.
pub open spec fn candidates(
    grid: Seq<Seq<usize>>,
    w: nat,
    h: nat,
    x: int,
    y: int,
    i: usize,
) -> Seq<usize> {
    neighbour_part(grid, w, h, x, y, 0, 0, i) + neighbour_part(grid, w, h, x, y, 1, 0, i)
        + neighbour_part(grid, w, h, x, y, 0, 1, i) + neighbour_part(grid, w, h, x, y, 1, 1, i)
}

fn push_above(out: &mut Vec<usize>, bucket: &Vec<usize>, i: usize)
    ensures
        final(out)@ == old(out)@ + above(bucket@, i),
{
    let ghost start = out@;
    let mut k: usize = 0;
    while k < bucket.len()
        invariant
            k <= bucket.len(),
            out@ == start + above(bucket@.take(k as int), i),
        decreases bucket.len() - k,
    {
        let j = bucket[k];
        proof {
            assert(bucket@.take(k + 1).drop_last() =~= bucket@.take(k as int));
            assert(bucket@.take(k + 1).last() == j);
        }
        if j > i {
            out.push(j);
        }
        assert(out@ =~= start + above(bucket@.take(k + 1), i));
        k = k + 1;
    }
    assert(bucket@.take(bucket.len() as int) =~= bucket@);
}

/// Computes `candidates` for heart `i` in cell `(x, y)` of the grid.
pub fn neighbour_candidates(
    grid: &Vec<Vec<usize>>,
    w: usize,
    h: usize,
    x: usize,
    y: usize,
    i: usize,
) -> (r: Vec<usize>)
    requires
        grid.len() == w * h,
        w * h <= usize::MAX,
        x < w,
        y < h,
        x < i32::MAX,
        y < i32::MAX,
    ensures
        r@ == candidates(buckets(grid@), w as nat, h as nat, x as int, y as int, i),
{
    let mut out: Vec<usize> = Vec::new();
    let ghost g = buckets(grid@);
    let mut dy: usize = 0;
    while dy <= 1
        invariant
            dy <= 2,
            grid.len() == w * h,
            w * h <= usize::MAX,
            x < w,
            y < h,
            g == buckets(grid@),
            out@ == (if dy == 0 {
                Seq::<usize>::empty()
            } else if dy == 1 {
                neighbour_part(g, w as nat, h as nat, x as int, y as int, 0, 0, i)
                    + neighbour_part(g, w as nat, h as nat, x as int, y as int, 1, 0, i)
            } else {
                candidates(g, w as nat, h as nat, x as int, y as int, i)
            }),
        decreases 2 - dy,
    {
        let mut dx: usize = 0;
        let ghost row_start = out@;
        while dx <= 1
            invariant
                dx <= 2,
                dy <= 1,
                grid.len() == w * h,
                w * h <= usize::MAX,
                x < w,
                y < h,
                g == buckets(grid@),
                out@ == row_start + (if dx == 0 {
                    Seq::<usize>::empty()
                } else if dx == 1 {
                    neighbour_part(g, w as nat, h as nat, x as int, y as int, 0, dy as int, i)
                } else {
                    neighbour_part(g, w as nat, h as nat, x as int, y as int, 0, dy as int, i)
                        + neighbour_part(g, w as nat, h as nat, x as int, y as int, 1, dy as int, i)
                }),
            decreases 2 - dx,
        {
            let nx: usize = x + dx;
            let ny: usize = y + dy;
            let ghost before = out@;
            if nx < w && ny < h {
                proof {
                    assert(ny * w + nx < w * h) by (nonlinear_arith)
                        requires
                            nx < w,
                            ny < h,
                    ;
                }
                let k: usize = ny * w + nx;
                push_above(&mut out, &grid[k], i);
                assert(g[k as int] == grid@[k as int]@);
            }
            assert(out@ =~= before + neighbour_part(
                g,
                w as nat,
                h as nat,
                x as int,
                y as int,
                dx as int,
                dy as int,
                i,
            ));
            dx = dx + 1;
        }
        assert(out@ =~= row_start + neighbour_part(g, w as nat, h as nat, x as int, y as int, 0, dy as int, i)
            + neighbour_part(g, w as nat, h as nat, x as int, y as int, 1, dy as int, i));
        dy = dy + 1;
    }
    out
}


proof fn lemma_members_contains(cells: Seq<(usize, usize)>, w: nat, k: int, n: int)
    requires
        n <= cells.len(),
        n <= usize::MAX + 1,
    ensures
        forall|j: usize|
            #[trigger] members(cells, w, k, n).contains(j) <==> (0 <= j < n && cell_index(
                cells[j as int],
                w,
            ) == k),
    decreases n,
{
    if n > 0 {
        lemma_members_contains(cells, w, k, n - 1);
        let prev = members(cells, w, k, n - 1);
        let last: Seq<usize> = if cell_index(cells[n - 1], w) == k {
            seq![(n - 1) as usize]
        } else {
            seq![]
        };
        let m = prev + last;
        assert(m == members(cells, w, k, n));
        assert forall|j: usize| #[trigger]
            m.contains(j) <==> (0 <= j < n && cell_index(cells[j as int], w) == k) by {
            if m.contains(j) {
                let t = choose|t: int| 0 <= t < m.len() && m[t] == j;
                if t >= prev.len() {
                    assert(last[t - prev.len()] == j);
                } else {
                    assert(prev[t] == j);
                    assert(prev.contains(j));
                }
            }
            if 0 <= j < n && cell_index(cells[j as int], w) == k {
                if j == n - 1 {
                    assert(m[prev.len() as int] == j);
                } else {
                    assert(prev.contains(j));
                    let t = choose|t: int| 0 <= t < prev.len() && prev[t] == j;
                    assert(m[t] == j);
                }
            }
        }
    }
}

proof fn lemma_above_contains(s: Seq<usize>, i: usize)
    ensures
        forall|j: usize| #[trigger] above(s, i).contains(j) <==> (s.contains(j) && j > i),
    decreases s.len(),
{
    if s.len() > 0 {
        lemma_above_contains(s.drop_last(), i);
        let prev = above(s.drop_last(), i);
        let last: Seq<usize> = if s.last() > i {
            seq![s.last()]
        } else {
            seq![]
        };
        let m = prev + last;
        assert(m == above(s, i));
        assert forall|j: usize| #[trigger] m.contains(j) <==> (s.contains(j) && j > i) by {
            if m.contains(j) {
                let t = choose|t: int| 0 <= t < m.len() && m[t] == j;
                if t >= prev.len() {
                    assert(s[s.len() - 1] == j);
                } else {
                    assert(prev[t] == j);
                    assert(prev.contains(j));
                    assert(s.drop_last().contains(j));
                    let u = choose|u: int| 0 <= u < s.drop_last().len() && s.drop_last()[u] == j;
                    assert(s[u] == j);
                }
            }
            if s.contains(j) && j > i {
                let u = choose|u: int| 0 <= u < s.len() && s[u] == j;
                if u == s.len() - 1 {
                    assert(m[prev.len() as int] == j);
                } else {
                    assert(s.drop_last()[u] == j);
                    assert(s.drop_last().contains(j));
                    assert(prev.contains(j));
                    let t = choose|t: int| 0 <= t < prev.len() && prev[t] == j;
                    assert(m[t] == j);
                }
            }
        }
    }
}

proof fn lemma_row_major_injective(a0: int, a1: int, b0: int, b1: int, w: int)
    requires
        0 <= a0 < w,
        0 <= b0 < w,
        a1 >= 0,
        b1 >= 0,
        a1 * w + a0 == b1 * w + b0,
    ensures
        a0 == b0,
        a1 == b1,
{
    if a1 < b1 {
        assert(a1 * w + w <= b1 * w) by (nonlinear_arith)
            requires
                a1 < b1,
                w > 0,
        ;
    } else if a1 > b1 {
        assert(b1 * w + w <= a1 * w) by (nonlinear_arith)
            requires
                a1 > b1,
                w > 0,
        ;
    }
}

/// The broad phase finds exactly the right pairs: with the grid built from
/// the hearts' cells, the hearts tested against heart `i` in cell `(x, y)`
/// are exactly the hearts numbered above `i` whose cell is `(x, y)`, the
/// cell right of it, the cell below it, or the cell below right.
pub proof fn lemma_candidates_exact(
    grid: Seq<Seq<usize>>,
    cells: Seq<(usize, usize)>,
    w: nat,
    h: nat,
    x: int,
    y: int,
    i: usize,
)
    requires
        cells.len() <= usize::MAX,
        is_grid_of(grid, cells, w, h),
        cells_in_grid(cells, w, h),
        0 <= x < w,
        0 <= y < h,
    ensures
        forall|j: usize| #[trigger]
            candidates(grid, w, h, x, y, i).contains(j) <==> (j < cells.len() && j > i && (
            cells[j as int].0 == x || cells[j as int].0 == x + 1) && (cells[j as int].1 == y
                || cells[j as int].1 == y + 1)),
{
    let n = cells.len() as int;
    let p00 = neighbour_part(grid, w, h, x, y, 0, 0, i);
    let p10 = neighbour_part(grid, w, h, x, y, 1, 0, i);
    let p01 = neighbour_part(grid, w, h, x, y, 0, 1, i);
    let p11 = neighbour_part(grid, w, h, x, y, 1, 1, i);
    assert forall|dx: int, dy: int, j: usize|
        0 <= dx <= 1 && 0 <= dy <= 1 implies (#[trigger] neighbour_part(
        grid,
        w,
        h,
        x,
        y,
        dx,
        dy,
        i,
    ).contains(j) <==> (j < n && j > i && cells[j as int].0 == x + dx && cells[j as int].1 == y
        + dy)) by {
        if x + dx < w && y + dy < h {
            let k = (y + dy) * w + x + dx;
            assert(0 <= k < w * h) by (nonlinear_arith)
                requires
                    0 <= x + dx < w,
                    0 <= y + dy < h,
                    k == (y + dy) * w + x + dx,
            ;
            assert(grid[k] == members(cells, w, k, n));
            lemma_members_contains(cells, w, k, n);
            lemma_above_contains(grid[k], i);
            if j < n {
                let c = cells[j as int];
                assert(c.0 < w && c.1 < h);
                if cell_index(c, w) == k {
                    lemma_row_major_injective(c.0 as int, c.1 as int, x + dx, y + dy, w as int);
                }
            }
        } else {
            if j < n {
                assert(cells[j as int].0 < w && cells[j as int].1 < h);
            }
        }
    }
    assert forall|j: usize| #[trigger]
        candidates(grid, w, h, x, y, i).contains(j) <==> (p00.contains(j) || p10.contains(j)
            || p01.contains(j) || p11.contains(j)) by {
        let c = p00 + p10 + p01 + p11;
        assert(c =~= candidates(grid, w, h, x, y, i));
        if c.contains(j) {
            let t = choose|t: int| 0 <= t < c.len() && c[t] == j;
            if t < p00.len() {
                assert(p00[t] == j);
            } else if t < p00.len() + p10.len() {
                assert(p10[t - p00.len()] == j);
            } else if t < p00.len() + p10.len() + p01.len() {
                assert(p01[t - p00.len() - p10.len()] == j);
            } else {
                assert(p11[t - p00.len() - p10.len() - p01.len()] == j);
            }
        }
        if p00.contains(j) {
            let t = choose|t: int| 0 <= t < p00.len() && p00[t] == j;
            assert(c[t] == j);
        }
        if p10.contains(j) {
            let t = choose|t: int| 0 <= t < p10.len() && p10[t] == j;
            assert(c[p00.len() + t] == j);
        }
        if p01.contains(j) {
            let t = choose|t: int| 0 <= t < p01.len() && p01[t] == j;
            assert(c[p00.len() + p10.len() + t] == j);
        }
        if p11.contains(j) {
            let t = choose|t: int| 0 <= t < p11.len() && p11[t] == j;
            assert(c[p00.len() + p10.len() + p01.len() + t] == j);
        }
    }
}


/// The hearts tested against heart `i` in cell `(x, y)` come in this order:
/// those of its own cell, of the cell to the right, of the cell below, then
/// of the cell below right (a cell outside the grid giving none), each in
/// the order of its bucket, keeping only hearts numbered above `i`.
pub proof fn lemma_candidates_order(grid: Seq<Seq<usize>>, w: nat, h: nat, x: int, y: int, i: usize)
    requires
        0 <= x < w,
        0 <= y < h,
    ensures
        candidates(grid, w, h, x, y, i) == above(grid[y * w + x], i) + (if x + 1 < w {
            above(grid[y * w + x + 1], i)
        } else {
            seq![]
        }) + (if y + 1 < h {
            above(grid[(y + 1) * w + x], i)
        } else {
            seq![]
        }) + (if x + 1 < w && y + 1 < h {
            above(grid[(y + 1) * w + x + 1], i)
        } else {
            seq![]
        }),
{
}

/// Each bucket lists its hearts in increasing order, without repeats.
pub proof fn lemma_members_increasing(cells: Seq<(usize, usize)>, w: nat, k: int, n: int)
    requires
        n <= cells.len(),
        n <= usize::MAX + 1,
    ensures
        forall|a: int, b: int|
            0 <= a < b < members(cells, w, k, n).len() ==> members(cells, w, k, n)[a] < members(
                cells,
                w,
                k,
                n,
            )[b],
        forall|a: int| 0 <= a < members(cells, w, k, n).len() ==> members(cells, w, k, n)[a] < n,
    decreases n,
{
    if n > 0 {
        lemma_members_increasing(cells, w, k, n - 1);
        let prev = members(cells, w, k, n - 1);
        let last: Seq<usize> = if cell_index(cells[n - 1], w) == k {
            seq![(n - 1) as usize]
        } else {
            seq![]
        };
        let m = prev + last;
        assert(m == members(cells, w, k, n));
        assert forall|a: int| 0 <= a < m.len() implies m[a] < n by {
            if a < prev.len() {
                assert(m[a] == prev[a]);
            }
        }
        assert forall|a: int, b: int| 0 <= a < b < m.len() implies m[a] < m[b] by {
            if b < prev.len() {
                assert(m[a] == prev[a] && m[b] == prev[b]);
            } else {
                assert(m[a] == prev[a]);
                assert(prev[a] < n - 1);
            }
        }
    }
}

} // verus!
