//! Uniform spatial grid over entry bounds, in cell coordinates.
//!
//! Each entry is placed in every cell its cell range covers, unless it has no
//! usable range or spans more than `MAX_SPAN_CELLS` cells: those go into an
//! always-returned `oversized` list instead of being smeared across the grid.
//! A query over a cell rectangle answers "which entries may be near here" in
//! time proportional to the cells and candidates involved, not to all entries.
//! Mapping world coordinates to cells is the caller's.

use vstd::prelude::*;

verus! {

/// An entry spanning more cells than this is kept in the oversized list.
pub const MAX_SPAN_CELLS: u64 = 64;

/// The grid has at most this many columns and rows.
pub const MAX_AXIS_CELLS: u32 = 8192;

/// An inclusive rectangle of cells: columns `c0..=c1`, rows `r0..=r1`.
#[derive(Clone, Copy, Debug, PartialEq, Eq, Structural)]
pub struct CellRange {
    pub c0: u32,
    pub c1: u32,
    pub r0: u32,
    pub r1: u32,
}

/// `r` is a non-empty rectangle inside a `cols` × `rows` grid.
pub open spec fn range_ok(r: CellRange, cols: u32, rows: u32) -> bool {
    r.c0 <= r.c1 < cols && r.r0 <= r.r1 < rows
}

/// How many cells `r` covers.
pub open spec fn span(r: CellRange) -> int {
    (r.c1 - r.c0 + 1) * (r.r1 - r.r0 + 1)
}

/// An entry with this placement is stored in the cells it covers.
pub open spec fn celled(p: Option<CellRange>) -> bool {
    p matches Some(r) && span(r) <= MAX_SPAN_CELLS
}

/// Whether an entry with placement `p` is stored in cell (`row`, `col`).
pub open spec fn covers(p: Option<CellRange>, row: int, col: int) -> bool {
    p matches Some(r) && celled(p) && r.r0 <= row <= r.r1 && r.c0 <= col <= r.c1
}

/// Whether two cell rectangles share a cell.
pub open spec fn overlaps(a: CellRange, b: CellRange) -> bool {
    a.c0 <= b.c1 && b.c0 <= a.c1 && a.r0 <= b.r1 && b.r0 <= a.r1
}

/// A strictly increasing sequence.
pub open spec fn increasing(s: Seq<u32>) -> bool {
    forall|i: int, j: int| 0 <= i < j < s.len() ==> s[i] < s[j]
}

/// The entries a query over `q` must return: every oversized entry, and every
/// celled entry whose range shares a cell with `q` (`q` is `None` when the
/// query lies outside the grid).
pub open spec fn candidate(placements: Seq<Option<CellRange>>, q: Option<CellRange>, x: u32) -> bool {
    &&& x < placements.len()
    &&& (!celled(placements[x as int]) || (q matches Some(qr) && placements[x as int] matches Some(
        r,
    ) && celled(placements[x as int]) && overlaps(r, qr)))
}

/// The grid.
pub struct CellGrid {
    cols: u32,
    rows: u32,
    /// `cells[row][col]`: the entries stored in that cell, increasing.
    cells: Vec<Vec<Vec<u32>>>,
    /// Entries always returned, increasing.
    oversized: Vec<u32>,
    placements: Ghost<Seq<Option<CellRange>>>,
}

impl CellGrid {
    /// The number of columns.
    pub closed spec fn cols(&self) -> u32 {
        self.cols
    }

    /// The number of rows.
    pub closed spec fn rows(&self) -> u32 {
        self.rows
    }

    /// The placement of every entry, by index.
    pub closed spec fn placements(&self) -> Seq<Option<CellRange>> {
        self.placements@
    }

    /// The grid's invariant: every cell holds, in increasing order, exactly
    /// the celled entries covering it; the oversized list holds, in increasing
    /// order, exactly the entries that are not celled.
    pub closed spec fn wf(&self) -> bool {
        &&& 1 <= self.cols <= MAX_AXIS_CELLS
        &&& 1 <= self.rows <= MAX_AXIS_CELLS
        &&& self.placements@.len() <= u32::MAX
        &&& forall|i: int|
            0 <= i < self.placements@.len() ==> (#[trigger] self.placements@[i] matches Some(r)
                ==> range_ok(r, self.cols, self.rows))
        &&& self.cells@.len() == self.rows
        &&& forall|r: int| 0 <= r < self.rows ==> (#[trigger] self.cells@[r])@.len() == self.cols
        &&& forall|r: int, c: int|
            0 <= r < self.rows && 0 <= c < self.cols ==> increasing(
                (#[trigger] self.cells@[r]@[c])@,
            )
        &&& forall|r: int, c: int, x: u32|
            0 <= r < self.rows && 0 <= c < self.cols ==> ((#[trigger] self.cells@[r]@[c]@.contains(x)) <==> x < self.placements@.len() && covers(self.placements@[x as int], r, c))
        &&& increasing(self.oversized@)
        &&& forall|x: u32| #[trigger]
            self.oversized@.contains(x) <==> x < self.placements@.len() && !celled(
                self.placements@[x as int],
            )
    }

    /// Builds the grid for entries placed at `placements` (`None`: no usable
    /// range) in a `cols` × `rows` grid.
    pub fn build(cols: u32, rows: u32, placements: &[Option<CellRange>]) -> (g: Self)
        requires
            1 <= cols <= MAX_AXIS_CELLS,
            1 <= rows <= MAX_AXIS_CELLS,
            placements@.len() <= u32::MAX,
            forall|i: int|
                0 <= i < placements@.len() ==> (#[trigger] placements@[i] matches Some(r)
                    ==> range_ok(r, cols, rows)),
        ensures
            g.wf(),
            g.cols() == cols,
            g.rows() == rows,
            g.placements() == placements@,
    {
        let ghost pl = placements@;
        let mut cells: Vec<Vec<Vec<u32>>> = Vec::new();
        let mut r: u32 = 0;
        while r < rows
            invariant
                r <= rows,
                cells@.len() == r,
                forall|k: int| 0 <= k < r ==> (#[trigger] cells@[k])@.len() == cols,
                forall|k: int, c: int| 0 <= k < r && 0 <= c < cols ==> (#[trigger] cells@[k]@[c])@.len() == 0,
            decreases rows - r,
        {
            let mut row: Vec<Vec<u32>> = Vec::new();
            let mut c: u32 = 0;
            while c < cols
                invariant
                    c <= cols,
                    row@.len() == c,
                    forall|k: int| 0 <= k < c ==> (#[trigger] row@[k])@.len() == 0,
                decreases cols - c,
            {
                row.push(Vec::new());
                c = c + 1;
            }
            cells.push(row);
            r = r + 1;
        }
        let mut oversized: Vec<u32> = Vec::new();
        let n = placements.len();
        let mut i: usize = 0;
        while i < n
            invariant
                n == pl.len() <= u32::MAX,
                pl == placements@,
                1 <= cols <= MAX_AXIS_CELLS,
                1 <= rows <= MAX_AXIS_CELLS,
                forall|k: int| 0 <= k < pl.len() ==> (#[trigger] pl[k] matches Some(rr) ==> range_ok(rr, cols, rows)),
                i <= n,
                cells@.len() == rows,
                forall|k: int| 0 <= k < rows ==> (#[trigger] cells@[k])@.len() == cols,
                forall|k: int, c: int|
                    0 <= k < rows && 0 <= c < cols ==> increasing((#[trigger] cells@[k]@[c])@),
                forall|k: int, c: int, y: u32|
                    0 <= k < rows && 0 <= c < cols ==> ((#[trigger] cells@[k]@[c]@.contains(y))
                        <==> y < i && covers(pl[y as int], k, c)),
                forall|k: int, c: int, j: int|
                    0 <= k < rows && 0 <= c < cols && 0 <= j < cells@[k]@[c]@.len() ==> #[trigger] cells@[k]@[c]@[j] < i,
                increasing(oversized@),
                forall|j: int| 0 <= j < oversized@.len() ==> oversized@[j] < i,
                forall|y: u32| #[trigger] oversized@.contains(y) <==> y < i && !celled(pl[y as int]),
            decreases n - i,
        {
            let idx: u32 = i as u32;
            let p = placements[i];
            let mut stored = false;
            match p {
                Some(rg) => {
                    let w: u64 = (rg.c1 - rg.c0 + 1) as u64;
                    let h: u64 = (rg.r1 - rg.r0 + 1) as u64;
                    assert(w <= 8192 && h <= 8192);
                    assert(w * h <= 8192 * 8192) by (nonlinear_arith)
                        requires
                            w <= 8192,
                            h <= 8192,
                    ;
                    if w * h <= MAX_SPAN_CELLS {
                        stored = true;
                        self_insert(&mut cells, rg, idx, cols, rows, Ghost(pl));
                    }
                },
                None => {},
            }
            if !stored {
                proof {
                    assert(!celled(pl[i as int]));
                }
                let ghost before = oversized@;
                oversized.push(idx);
                proof {
                    assert(oversized@ == before.push(idx));
                    assert(idx as int == i as int);
                    assert forall|y: u32| #[trigger] oversized@.contains(y) <==> y < i + 1 && !celled(pl[y as int]) by {
                        if y == idx {
                            assert(oversized@[before.len() as int] == y);
                        }
                        if oversized@.contains(y) && y != idx {
                            let k = choose|k: int| 0 <= k < oversized@.len() && oversized@[k] == y;
                            assert(k < before.len());
                            assert(before[k] == y);
                            assert(before.contains(y));
                        }
                        if y < i && !celled(pl[y as int]) {
                            assert(before.contains(y));
                            let k = choose|k: int| 0 <= k < before.len() && before[k] == y;
                            assert(oversized@[k] == y);
                        }
                    }
                }
            } else {
                proof {
                    assert(celled(pl[i as int]));
                    assert forall|y: u32| #[trigger] oversized@.contains(y) <==> y < i + 1 && !celled(pl[y as int]) by {
                        if y == idx {
                            assert(celled(pl[y as int]));
                        }
                    }
                }
            }
            i = i + 1;
        }
        CellGrid { cols, rows, cells, oversized, placements: Ghost(pl) }
    }
}

/// Adds entry `idx` to every cell of `rg`.
fn self_insert(
    cells: &mut Vec<Vec<Vec<u32>>>,
    rg: CellRange,
    idx: u32,
    cols: u32,
    rows: u32,
    Ghost(pl): Ghost<Seq<Option<CellRange>>>,
)
    requires
        idx < pl.len(),
        pl[idx as int] == Some(rg),
        celled(pl[idx as int]),
        range_ok(rg, cols, rows),
        old(cells)@.len() == rows,
        forall|k: int| 0 <= k < rows ==> (#[trigger] old(cells)@[k])@.len() == cols,
        forall|k: int, c: int|
            0 <= k < rows && 0 <= c < cols ==> increasing((#[trigger] old(cells)@[k]@[c])@),
        forall|k: int, c: int, y: u32|
            0 <= k < rows && 0 <= c < cols ==> ((#[trigger] old(cells)@[k]@[c]@.contains(y)) <==> y
                < idx && covers(pl[y as int], k, c)),
        forall|k: int, c: int, j: int|
            0 <= k < rows && 0 <= c < cols && 0 <= j < old(cells)@[k]@[c]@.len() ==> #[trigger] old(cells)@[k]@[c]@[j] < idx,
    ensures
        final(cells)@.len() == rows,
        forall|k: int| 0 <= k < rows ==> (#[trigger] final(cells)@[k])@.len() == cols,
        forall|k: int, c: int|
            0 <= k < rows && 0 <= c < cols ==> increasing((#[trigger] final(cells)@[k]@[c])@),
        forall|k: int, c: int, y: u32|
            0 <= k < rows && 0 <= c < cols ==> ((#[trigger] final(cells)@[k]@[c]@.contains(y)) <==> y
                < idx + 1 && covers(pl[y as int], k, c)),
        forall|k: int, c: int, j: int|
            0 <= k < rows && 0 <= c < cols && 0 <= j < final(cells)@[k]@[c]@.len() ==> #[trigger] final(cells)@[k]@[c]@[j] < idx + 1,
{
    let ghost start = cells@;
    assert(start == old(cells)@);
    let mut r = rg.r0;
    while r <= rg.r1
        invariant
            rg.r0 <= r <= rg.r1 + 1,
            range_ok(rg, cols, rows),
            idx < pl.len(),
            pl[idx as int] == Some(rg),
            celled(pl[idx as int]),
            cells@.len() == rows,
            forall|k: int| 0 <= k < rows ==> (#[trigger] cells@[k])@.len() == cols,
            forall|k: int, c: int|
                0 <= k < rows && 0 <= c < cols ==> increasing((#[trigger] cells@[k]@[c])@),
            forall|k: int, c: int|
                0 <= k < rows && 0 <= c < cols ==> (#[trigger] cells@[k]@[c])@ == if rg.r0 <= k < r
                    && rg.c0 <= c <= rg.c1 {
                    start[k]@[c]@.push(idx)
                } else {
                    start[k]@[c]@
                },
            forall|k: int, c: int| 0 <= k < rows && 0 <= c < cols ==> increasing((#[trigger] start[k]@[c])@),
            start.len() == rows,
            forall|k: int| 0 <= k < rows ==> (#[trigger] start[k])@.len() == cols,
            forall|k: int, c: int, j: int|
                0 <= k < rows && 0 <= c < cols && 0 <= j < start[k]@[c]@.len() ==> #[trigger] start[k]@[c]@[j] < idx,
        decreases rg.r1 + 1 - r,
    {
        let mut c = rg.c0;
        while c <= rg.c1
            invariant
                rg.r0 <= r <= rg.r1,
                rg.c0 <= c <= rg.c1 + 1,
                range_ok(rg, cols, rows),
                cells@.len() == rows,
                forall|k: int| 0 <= k < rows ==> (#[trigger] cells@[k])@.len() == cols,
                forall|k: int, cc: int|
                    0 <= k < rows && 0 <= cc < cols ==> (#[trigger] cells@[k]@[cc])@ == if (rg.r0 <= k
                        < r && rg.c0 <= cc <= rg.c1) || (k == r && rg.c0 <= cc < c) {
                        start[k]@[cc]@.push(idx)
                    } else {
                        start[k]@[cc]@
                    },
                forall|k: int, cc: int| 0 <= k < rows && 0 <= cc < cols ==> increasing((#[trigger] start[k]@[cc])@),
                start.len() == rows,
                forall|k: int| 0 <= k < rows ==> (#[trigger] start[k])@.len() == cols,
                forall|k: int, cc: int, j: int|
                    0 <= k < rows && 0 <= cc < cols && 0 <= j < start[k]@[cc]@.len() ==> #[trigger] start[k]@[cc]@[j] < idx,
            decreases rg.c1 + 1 - c,
        {
            cells[r as usize][c as usize].push(idx);
            c = c + 1;
        }
        r = r + 1;
    }
    assert forall|k: int, c: int|
        0 <= k < rows && 0 <= c < cols implies increasing((#[trigger] cells@[k]@[c])@) by {
        if rg.r0 <= k <= rg.r1 && rg.c0 <= c <= rg.c1 {
            let s = start[k]@[c]@;
            assert(cells@[k]@[c]@ == s.push(idx));
            assert forall|a: int, b: int| 0 <= a < b < s.push(idx).len() implies s.push(idx)[a] < s.push(idx)[b] by {
                if b == s.len() {
                    assert(s[a] < idx);
                }
            }
        }
    }
    assert forall|k: int, c: int, y: u32|
        0 <= k < rows && 0 <= c < cols implies ((#[trigger] cells@[k]@[c]@.contains(y)) <==> y < idx + 1
            && covers(pl[y as int], k, c)) by {
        let s = start[k]@[c]@;
        assert(s == old(cells)@[k]@[c]@);
        assert(old(cells)@[k]@[c]@.contains(y) <==> y < idx && covers(pl[y as int], k, c));
        if rg.r0 <= k <= rg.r1 && rg.c0 <= c <= rg.c1 {
            assert(cells@[k]@[c]@ == s.push(idx));
            if y == idx {
                assert(s.push(idx)[s.len() as int] == y);
            } else if s.push(idx).contains(y) {
                let j = choose|j: int| 0 <= j < s.push(idx).len() && s.push(idx)[j] == y;
                assert(s[j] == y);
            } else if s.contains(y) {
                let j = choose|j: int| 0 <= j < s.len() && s[j] == y;
                assert(s.push(idx)[j] == y);
            }
        } else {
            if y == idx {
                assert(!covers(pl[y as int], k, c));
                if s.contains(y) {
                    let j = choose|j: int| 0 <= j < s.len() && s[j] == y;
                    assert(s[j] < idx);
                }
            }
        }
    }
    assert forall|k: int, c: int, j: int|
        0 <= k < rows && 0 <= c < cols && 0 <= j < cells@[k]@[c]@.len() implies #[trigger] cells@[k]@[c]@[j] < idx + 1 by {
        let s = start[k]@[c]@;
        if rg.r0 <= k <= rg.r1 && rg.c0 <= c <= rg.c1 {
            if j < s.len() {
                assert(cells@[k]@[c]@[j] == s[j]);
            }
        }
    }
}


proof fn lemma_take_contains(s: Seq<u32>, i: int, x: u32)
    requires
        0 <= i < s.len(),
    ensures
        s.take(i + 1).contains(x) <==> (s.take(i).contains(x) || x == s[i]),
{
    let t1 = s.take(i + 1);
    let t0 = s.take(i);
    if t1.contains(x) && x != s[i] {
        let k = choose|k: int| 0 <= k < t1.len() && t1[k] == x;
        assert(t0[k] == x);
    }
    if t0.contains(x) {
        let k = choose|k: int| 0 <= k < t0.len() && t0[k] == x;
        assert(t1[k] == x);
    }
    if x == s[i] {
        assert(s.take(i + 1)[i] == x);
    }
}

/// The strictly increasing union of two strictly increasing sequences.
pub fn merge_unique(a: &[u32], b: &[u32]) -> (r: Vec<u32>)
    requires
        increasing(a@),
        increasing(b@),
    ensures
        increasing(r@),
        forall|x: u32| #[trigger] r@.contains(x) <==> (a@.contains(x) || b@.contains(x)),
{
    let mut out: Vec<u32> = Vec::new();
    let mut i: usize = 0;
    let mut j: usize = 0;
    proof {
        assert(a@.take(0) =~= Seq::<u32>::empty());
        assert(b@.take(0) =~= Seq::<u32>::empty());
    }
    while i < a.len() || j < b.len()
        invariant
            increasing(a@),
            increasing(b@),
            i <= a@.len(),
            j <= b@.len(),
            increasing(out@),
            forall|x: u32| #[trigger] out@.contains(x) <==> (a@.take(i as int).contains(x) || b@.take(j as int).contains(x)),
            forall|k: int| 0 <= k < out@.len() ==> (i < a@.len() ==> #[trigger] out@[k] < a@[i as int]),
            forall|k: int| 0 <= k < out@.len() ==> (j < b@.len() ==> #[trigger] out@[k] < b@[j as int]),
        decreases a@.len() + b@.len() - i - j,
    {
        let ghost before = out@;
        if j == b.len() || (i < a.len() && a[i] < b[j]) {
            let x = a[i];
            out.push(x);
            proof {
                assert forall|y: u32| #[trigger] out@.contains(y) <==> (a@.take(i + 1).contains(y) || b@.take(j as int).contains(y)) by {
                    lemma_take_contains(a@, i as int, y);
                    if out@.contains(y) && y != x {
                        let k = choose|k: int| 0 <= k < out@.len() && out@[k] == y;
                        assert(before[k] == y);
                        assert(before.contains(y));
                    }
                    if before.contains(y) {
                        let k = choose|k: int| 0 <= k < before.len() && before[k] == y;
                        assert(out@[k] == y);
                    }
                    if y == x {
                        assert(out@[before.len() as int] == y);
                    }
                }
                assert forall|p: int, q: int| 0 <= p < q < out@.len() implies out@[p] < out@[q] by {
                    if q == before.len() {
                        assert(before[p] < a@[i as int]);
                    }
                }
                assert forall|k: int| 0 <= k < out@.len() && i + 1 < a@.len() implies #[trigger] out@[k] < a@[i + 1] by {
                    assert(a@[i as int] < a@[i + 1]);
                }
            }
            i = i + 1;
        } else if i == a.len() || b[j] < a[i] {
            let x = b[j];
            out.push(x);
            proof {
                assert forall|y: u32| #[trigger] out@.contains(y) <==> (a@.take(i as int).contains(y) || b@.take(j + 1).contains(y)) by {
                    lemma_take_contains(b@, j as int, y);
                    if out@.contains(y) && y != x {
                        let k = choose|k: int| 0 <= k < out@.len() && out@[k] == y;
                        assert(before[k] == y);
                        assert(before.contains(y));
                    }
                    if before.contains(y) {
                        let k = choose|k: int| 0 <= k < before.len() && before[k] == y;
                        assert(out@[k] == y);
                    }
                    if y == x {
                        assert(out@[before.len() as int] == y);
                    }
                }
                assert forall|p: int, q: int| 0 <= p < q < out@.len() implies out@[p] < out@[q] by {
                    if q == before.len() {
                        assert(before[p] < b@[j as int]);
                    }
                }
                assert forall|k: int| 0 <= k < out@.len() && j + 1 < b@.len() implies #[trigger] out@[k] < b@[j + 1] by {
                    assert(b@[j as int] < b@[j + 1]);
                }
            }
            j = j + 1;
        } else {
            let x = a[i];
            out.push(x);
            proof {
                assert(b@[j as int] == x);
                assert forall|y: u32| #[trigger] out@.contains(y) <==> (a@.take(i + 1).contains(y) || b@.take(j + 1).contains(y)) by {
                    lemma_take_contains(a@, i as int, y);
                    lemma_take_contains(b@, j as int, y);
                    if out@.contains(y) && y != x {
                        let k = choose|k: int| 0 <= k < out@.len() && out@[k] == y;
                        assert(before[k] == y);
                        assert(before.contains(y));
                    }
                    if before.contains(y) {
                        let k = choose|k: int| 0 <= k < before.len() && before[k] == y;
                        assert(out@[k] == y);
                    }
                    if y == x {
                        assert(out@[before.len() as int] == y);
                    }
                }
                assert forall|p: int, q: int| 0 <= p < q < out@.len() implies out@[p] < out@[q] by {
                    if q == before.len() {
                        assert(before[p] < a@[i as int]);
                    }
                }
                assert forall|k: int| 0 <= k < out@.len() && i + 1 < a@.len() implies #[trigger] out@[k] < a@[i + 1] by {
                    assert(a@[i as int] < a@[i + 1]);
                }
                assert forall|k: int| 0 <= k < out@.len() && j + 1 < b@.len() implies #[trigger] out@[k] < b@[j + 1] by {
                    assert(b@[j as int] < b@[j + 1]);
                }
            }
            i = i + 1;
            j = j + 1;
        }
    }
    proof {
        assert(a@.take(a@.len() as int) =~= a@);
        assert(b@.take(b@.len() as int) =~= b@);
    }
    out
}

/// Whether `x` is in one of the lists.
pub open spec fn in_some(ls: Seq<Vec<u32>>, x: u32) -> bool {
    exists|k: int| 0 <= k < ls.len() && (#[trigger] ls[k])@.contains(x)
}

/// The strictly increasing union of strictly increasing lists, merged pairwise
/// round by round.
pub fn merge_all(lists: Vec<Vec<u32>>) -> (r: Vec<u32>)
    requires
        forall|k: int| 0 <= k < lists@.len() ==> increasing((#[trigger] lists@[k])@),
    ensures
        increasing(r@),
        forall|x: u32| #[trigger] r@.contains(x) <==> in_some(lists@, x),
    decreases lists@.len(),
{
    if lists.len() == 0 {
        return Vec::new();
    }
    if lists.len() == 1 {
        let r = lists[0].clone();
        proof {
            assert(r@ =~= lists@[0]@);
            assert forall|x: u32| #[trigger] r@.contains(x) <==> in_some(lists@, x) by {
                if in_some(lists@, x) {
                    let k = choose|k: int| 0 <= k < lists@.len() && (#[trigger] lists@[k])@.contains(x);
                    assert(k == 0);
                }
            }
        }
        return r;
    }
    let mut next: Vec<Vec<u32>> = Vec::new();
    let n = lists.len();
    let mut i: usize = 0;
    while i < n
        invariant
            n == lists@.len() >= 2,
            forall|k: int| 0 <= k < lists@.len() ==> increasing((#[trigger] lists@[k])@),
            i <= n,
            i % 2 == 0 || i == n,
            next@.len() == (i + 1) / 2,
            forall|k: int| 0 <= k < next@.len() ==> increasing((#[trigger] next@[k])@),
            forall|x: u32| in_some(next@, x) <==> (exists|k: int| 0 <= k < i && (#[trigger] lists@[k])@.contains(x)),
        decreases n - i,
    {
        let ghost before = next@;
        if i + 1 < n {
            let m = merge_unique(lists[i].as_slice(), lists[i + 1].as_slice());
            next.push(m);
            proof {
                assert forall|x: u32| in_some(next@, x) <==> (exists|k: int| 0 <= k < i + 2 && (#[trigger] lists@[k])@.contains(x)) by {
                    if in_some(next@, x) {
                        let k = choose|k: int| 0 <= k < next@.len() && (#[trigger] next@[k])@.contains(x);
                        if k < before.len() {
                            assert(before[k] == next@[k]);
                            assert(in_some(before, x));
                        } else {
                            if lists@[i as int]@.contains(x) {
                            } else {
                                assert(lists@[i + 1]@.contains(x));
                            }
                        }
                    }
                    if exists|k: int| 0 <= k < i + 2 && (#[trigger] lists@[k])@.contains(x) {
                        let k = choose|k: int| 0 <= k < i + 2 && (#[trigger] lists@[k])@.contains(x);
                        if k < i {
                            assert(in_some(before, x));
                            let kk = choose|kk: int| 0 <= kk < before.len() && (#[trigger] before[kk])@.contains(x);
                            assert(next@[kk] == before[kk]);
                        } else {
                            assert(next@[before.len() as int]@.contains(x));
                        }
                    }
                }
            }
            i = i + 2;
        } else {
            next.push(lists[i].clone());
            proof {
                assert(next@[before.len() as int]@ =~= lists@[i as int]@);
                assert forall|x: u32| in_some(next@, x) <==> (exists|k: int| 0 <= k < i + 1 && (#[trigger] lists@[k])@.contains(x)) by {
                    if in_some(next@, x) {
                        let k = choose|k: int| 0 <= k < next@.len() && (#[trigger] next@[k])@.contains(x);
                        if k < before.len() {
                            assert(before[k] == next@[k]);
                            assert(in_some(before, x));
                        }
                    }
                    if exists|k: int| 0 <= k < i + 1 && (#[trigger] lists@[k])@.contains(x) {
                        let k = choose|k: int| 0 <= k < i + 1 && (#[trigger] lists@[k])@.contains(x);
                        if k < i {
                            assert(in_some(before, x));
                            let kk = choose|kk: int| 0 <= kk < before.len() && (#[trigger] before[kk])@.contains(x);
                            assert(next@[kk] == before[kk]);
                        } else {
                            assert(next@[before.len() as int]@.contains(x));
                        }
                    }
                }
            }
            i = i + 1;
        }
    }
    let r = merge_all(next);
    proof {
        assert forall|x: u32| #[trigger] r@.contains(x) <==> in_some(lists@, x) by {
            if in_some(lists@, x) {
                let k = choose|k: int| 0 <= k < lists@.len() && (#[trigger] lists@[k])@.contains(x);
                assert(exists|k: int| 0 <= k < i && (#[trigger] lists@[k])@.contains(x));
            }
        }
    }
    r
}

/// Whether the celled range `p` shares a cell with the part of `qr` scanned
/// so far: its rows before `r`, and row `r` up to column `c` (exclusive).
pub open spec fn seen(p: CellRange, qr: CellRange, r: int, c: int) -> bool {
    ||| (qr.r0 < r && p.r0 < r && qr.r0 <= p.r1 && p.c0 <= qr.c1 && qr.c0 <= p.c1)
    ||| (p.r0 <= r <= p.r1 && qr.c0 < c && p.c0 < c && qr.c0 <= p.c1)
}

impl CellGrid {
    /// The candidates near the cell rectangle `q` (`None`: the query lies
    /// outside the grid): every oversized entry and every entry stored in a
    /// cell of `q`, each once, in increasing order.
    pub fn query(&self, q: Option<CellRange>) -> (r: Vec<u32>)
        requires
            self.wf(),
            q matches Some(qr) ==> range_ok(qr, self.cols(), self.rows()),
        ensures
            increasing(r@),
            forall|x: u32| #[trigger] r@.contains(x) <==> candidate(self.placements(), q, x),
    {
        let ghost pl = self.placements@;
        let mut lists: Vec<Vec<u32>> = Vec::new();
        let ov = self.oversized.clone();
        proof {
            assert(ov@ =~= self.oversized@);
        }
        lists.push(ov);
        proof {
            assert forall|x: u32| in_some(lists@, x) <==> self.oversized@.contains(x) by {
                if in_some(lists@, x) {
                    let k = choose|k: int| 0 <= k < lists@.len() && (#[trigger] lists@[k])@.contains(x);
                    assert(k == 0);
                }
                if self.oversized@.contains(x) {
                    assert(lists@[0]@.contains(x));
                }
            }
        }
        match q {
            Some(qr) => {
                let mut r = qr.r0;
                while r <= qr.r1
                    invariant
                        self.wf(),
                        pl == self.placements@,
                        range_ok(qr, self.cols, self.rows),
                        qr.r0 <= r <= qr.r1 + 1,
                        forall|k: int| 0 <= k < lists@.len() ==> increasing((#[trigger] lists@[k])@),
                        forall|x: u32| in_some(lists@, x) <==> (self.oversized@.contains(x) || (x < pl.len()
                            && celled(pl[x as int]) && seen(pl[x as int]->0, qr, r as int, qr.c0 as int))),
                    decreases qr.r1 + 1 - r,
                {
                    let mut c = qr.c0;
                    while c <= qr.c1
                        invariant
                            self.wf(),
                            pl == self.placements@,
                            range_ok(qr, self.cols, self.rows),
                            qr.r0 <= r <= qr.r1,
                            qr.c0 <= c <= qr.c1 + 1,
                            forall|k: int| 0 <= k < lists@.len() ==> increasing((#[trigger] lists@[k])@),
                            forall|x: u32| in_some(lists@, x) <==> (self.oversized@.contains(x) || (x < pl.len()
                                && celled(pl[x as int]) && seen(pl[x as int]->0, qr, r as int, c as int))),
                        decreases qr.c1 + 1 - c,
                    {
                        let cell = self.cells[r as usize][c as usize].clone();
                        proof {
                            assert(cell@ =~= self.cells@[r as int]@[c as int]@);
                        }
                        let ghost before = lists@;
                        lists.push(cell);
                        proof {
                            assert forall|x: u32| in_some(lists@, x) <==> (self.oversized@.contains(x) || (x < pl.len()
                                && celled(pl[x as int]) && seen(pl[x as int]->0, qr, r as int, c + 1))) by {
                                let here = self.cells@[r as int]@[c as int]@.contains(x);
                                assert(here <==> x < pl.len() && covers(pl[x as int], r as int, c as int));
                                if in_some(lists@, x) {
                                    let k = choose|k: int| 0 <= k < lists@.len() && (#[trigger] lists@[k])@.contains(x);
                                    if k < before.len() {
                                        assert(before[k] == lists@[k]);
                                        assert(in_some(before, x));
                                    } else {
                                        assert(here);
                                    }
                                }
                                if in_some(before, x) {
                                    let k = choose|k: int| 0 <= k < before.len() && (#[trigger] before[k])@.contains(x);
                                    assert(lists@[k] == before[k]);
                                }
                                if here {
                                    assert(lists@[before.len() as int]@.contains(x));
                                }
                            }
                        }
                        c = c + 1;
                    }
                    r = r + 1;
                }
                let ghost ls = lists@;
                let res = merge_all(lists);
                proof {
                    assert forall|x: u32| #[trigger] res@.contains(x) <==> candidate(pl, q, x) by {
                        assert(in_some(ls, x) <==> (self.oversized@.contains(x) || (x < pl.len()
                            && celled(pl[x as int]) && seen(pl[x as int]->0, qr, qr.r1 + 1, qr.c0 as int))));
                    }
                }
                res
            },
            None => {
                let res = merge_all(lists);
                res
            },
        }
    }
}

/// A query returns every entry without a usable cell range, wherever it
/// looks, and every celled entry sharing a cell with the queried rectangle;
/// a celled entry away from it is not returned.
pub proof fn lemma_query_candidates(
    placements: Seq<Option<CellRange>>,
    q: Option<CellRange>,
    x: u32,
)
    requires
        x < placements.len(),
    ensures
        placements[x as int] is None ==> candidate(placements, q, x),
        celled(placements[x as int]) && q is Some && overlaps(placements[x as int]->0, q->0)
            ==> candidate(placements, q, x),
        celled(placements[x as int]) && (q is None || !overlaps(placements[x as int]->0, q->0))
            ==> !candidate(placements, q, x),
{
}

} // verus!
