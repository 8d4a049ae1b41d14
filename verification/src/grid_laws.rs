//! What holds of a grid that has been rebuilt from a flock: every agent is
//! filed exactly once, in the cell of its position, and a query finds every
//! agent that is within its range, inside the world and outside.

use vstd::prelude::*;
use vstd::seq_lib::lemma_no_dup_in_concat;
use crate::boid::Boid;
use crate::fixed::floor_div;
use crate::spatial_grid::lemma_cell_in_grid;
use crate::spatial_grid::GridModel;

verus! {

impl GridModel {
    /// The number of the cell in which agent `i` of the flock is filed.
    pub open spec fn home(self, flock: Seq<Boid>, i: int) -> int {
        self.cell_index(flock[i].x as int, flock[i].y as int)
    }

    /// `v` is a place in the flock, and the agent there belongs in cell `c`.
    pub open spec fn belongs(self, flock: Seq<Boid>, c: int, v: usize) -> bool {
        v < flock.len() && self.home(flock, v as int) == c
    }

    /// Every entry of every bucket is an agent of the flock that belongs in
    /// that bucket's cell.
    pub open spec fn files_only(self, flock: Seq<Boid>) -> bool {
        forall|c: int, k: int|
            0 <= c < self.buckets.len() && 0 <= k < self.buckets[c].len() ==> self.belongs(
                flock,
                c,
                #[trigger] self.buckets[c][k],
            )
    }

    /// Every agent of the flock is in the bucket of its cell.
    pub open spec fn files_all(self, flock: Seq<Boid>) -> bool {
        forall|i: int|
            #![trigger self.home(flock, i)]
            0 <= i < flock.len() ==> self.buckets[self.home(flock, i)].contains(i as usize)
    }

    /// No bucket holds an agent twice.
    pub open spec fn files_once(self) -> bool {
        forall|c: int| 0 <= c < self.buckets.len() ==> (#[trigger] self.buckets[c]).no_duplicates()
    }

    /// The grid files the flock: each agent once, in the cell of its
    /// position, and nothing else.
    pub open spec fn files(self, flock: Seq<Boid>) -> bool {
        &&& self.wf()
        &&& self.files_only(flock)
        &&& self.files_all(flock)
        &&& self.files_once()
    }

    /// Everything that is filed: the buckets of all cells, row by row.
    pub open spec fn all_filed(self) -> Seq<usize> {
        self.block(0, self.width - 1, 0, self.height - 1)
    }
}

/// The cell of any position is a cell of the grid.
pub proof fn lemma_cell_index_in_grid(g: GridModel, x: int, y: int)
    requires
        g.wf(),
    ensures
        0 <= g.column(x) < g.width,
        0 <= g.row(y) < g.height,
        0 <= g.cell_index(x, y) < g.buckets.len(),
{
    lemma_cell_in_grid(g.column(x), g.row(y), g.width, g.height);
}

/// Two cells of the grid with the same number are the same cell.
pub proof fn lemma_cell_number_unique(width: int, x1: int, y1: int, x2: int, y2: int)
    requires
        0 <= x1 < width,
        0 <= x2 < width,
        y1 * width + x1 == y2 * width + x2,
    ensures
        x1 == x2,
        y1 == y2,
{
    if y1 < y2 {
        assert(y2 * width - y1 * width >= width) by (nonlinear_arith)
            requires
                y1 + 1 <= y2,
                width >= 1,
        ;
    } else if y2 < y1 {
        assert(y1 * width - y2 * width >= width) by (nonlinear_arith)
            requires
                y2 + 1 <= y1,
                width >= 1,
        ;
    }
}

/// Rebuilding keeps the shape of the grid.
pub proof fn lemma_rebuilt_shape(g: GridModel, flock: Seq<Boid>)
    requires
        g.wf(),
    ensures
        g.rebuilt(flock).wf(),
        g.rebuilt(flock).cell_size == g.cell_size,
        g.rebuilt(flock).width == g.width,
        g.rebuilt(flock).height == g.height,
    decreases flock.len(),
{
    if flock.len() > 0 {
        lemma_rebuilt_shape(g, flock.drop_last());
        let before = g.rebuilt(flock.drop_last());
        lemma_cell_index_in_grid(before, flock.last().x as int, flock.last().y as int);
    }
}

/// What a rebuild leaves behind depends on the shape of the grid alone, not
/// on what was filed before.
pub proof fn lemma_rebuilt_same(g: GridModel, h: GridModel, flock: Seq<Boid>)
    requires
        g.wf(),
        h.wf(),
        g.cell_size == h.cell_size,
        g.width == h.width,
        g.height == h.height,
    ensures
        g.rebuilt(flock) == h.rebuilt(flock),
    decreases flock.len(),
{
    if flock.len() == 0 {
        assert(g.cleared().buckets =~= h.cleared().buckets);
    } else {
        lemma_rebuilt_same(g, h, flock.drop_last());
    }
}

/// A rebuilt grid files the flock it was rebuilt from.
pub proof fn lemma_rebuilt_files(g: GridModel, flock: Seq<Boid>)
    requires
        g.wf(),
        flock.len() <= usize::MAX,
    ensures
        g.rebuilt(flock).files(flock),
    decreases flock.len(),
{
    lemma_rebuilt_shape(g, flock);
    let after = g.rebuilt(flock);
    if flock.len() == 0 {
        assert(after.files_only(flock));
        assert(after.files_all(flock));
        assert(after.files_once());
    } else {
        let rest = flock.drop_last();
        let before = g.rebuilt(rest);
        lemma_rebuilt_files(g, rest);
        lemma_rebuilt_shape(g, rest);
        let m = (flock.len() - 1) as usize;
        let c0 = before.cell_index(flock.last().x as int, flock.last().y as int);
        lemma_cell_index_in_grid(before, flock.last().x as int, flock.last().y as int);
        assert(c0 == after.home(flock, m as int));
        assert(after.buckets == before.buckets.update(c0, before.buckets[c0].push(m)));
        assert forall|i: int| 0 <= i < rest.len() implies after.home(flock, i) == before.home(
            rest,
            i,
        ) by {
            assert(rest[i] == flock[i]);
        }
        assert forall|c: int, k: int|
            0 <= c < after.buckets.len() && 0 <= k < after.buckets[c].len() implies after.belongs(
            flock,
            c,
            #[trigger] after.buckets[c][k],
        ) by {
            if c == c0 && k == before.buckets[c0].len() {
                assert(after.buckets[c][k] == m);
            } else {
                assert(after.buckets[c][k] == before.buckets[c][k]);
                assert(before.belongs(rest, c, before.buckets[c][k]));
            }
        }
        assert forall|i: int| 0 <= i < flock.len() implies after.buckets[#[trigger] after.home(
            flock,
            i,
        )].contains(i as usize) by {
            let h = after.home(flock, i);
            if i == m {
                let k = before.buckets[c0].len() as int;
                assert(after.buckets[h][k] == m);
            } else {
                assert(h == before.home(rest, i));
                lemma_cell_index_in_grid(before, rest[i].x as int, rest[i].y as int);
                assert(before.buckets[h].contains(i as usize));
                let k = choose|k: int|
                    0 <= k < before.buckets[h].len() && before.buckets[h][k] == i as usize;
                assert(after.buckets[h][k] == i as usize);
            }
        }
        assert forall|c: int| 0 <= c < after.buckets.len() implies (
        #[trigger] after.buckets[c]).no_duplicates() by {
            assert(before.buckets[c].no_duplicates());
            if c == c0 {
                let old_bucket = before.buckets[c0];
                assert forall|p: int, q: int|
                    0 <= p < after.buckets[c].len() && 0 <= q < after.buckets[c].len() && p
                        != q implies after.buckets[c][p] != after.buckets[c][q] by {
                    if p < old_bucket.len() {
                        assert(before.belongs(rest, c0, before.buckets[c0][p]));
                    }
                    if q < old_bucket.len() {
                        assert(before.belongs(rest, c0, before.buckets[c0][q]));
                    }
                }
            }
        }
    }
}

/// Every entry of a bucket in a span of a row is an entry of the span.
pub proof fn lemma_row_span_has(g: GridModel, row: int, x_lo: int, x_hi: int, cx: int, k: int)
    requires
        x_lo <= cx <= x_hi,
        0 <= k < g.buckets[row * g.width + cx].len(),
    ensures
        g.row_span(row, x_lo, x_hi).contains(g.buckets[row * g.width + cx][k]),
    decreases x_hi - x_lo,
{
    let head = g.row_span(row, x_lo, x_hi - 1);
    let tail = g.buckets[row * g.width + x_hi];
    let v = g.buckets[row * g.width + cx][k];
    if cx == x_hi {
        assert((head + tail)[head.len() + k] == v);
    } else {
        lemma_row_span_has(g, row, x_lo, x_hi - 1, cx, k);
        let p = choose|p: int| 0 <= p < head.len() && head[p] == v;
        assert((head + tail)[p] == v);
    }
}

/// Every entry of a span of a row is an entry of a bucket in the span: the
/// result gives the column and the place in that column's bucket.
pub proof fn lemma_row_span_from(g: GridModel, row: int, x_lo: int, x_hi: int, p: int) -> (at: (
    int,
    int,
))
    requires
        0 <= p < g.row_span(row, x_lo, x_hi).len(),
    ensures
        x_lo <= at.0 <= x_hi,
        0 <= at.1 < g.buckets[row * g.width + at.0].len(),
        g.buckets[row * g.width + at.0][at.1] == g.row_span(row, x_lo, x_hi)[p],
    decreases x_hi - x_lo,
{
    let head = g.row_span(row, x_lo, x_hi - 1);
    if x_hi < x_lo {
        (0, 0)
    } else if p < head.len() {
        lemma_row_span_from(g, row, x_lo, x_hi - 1, p)
    } else {
        (x_hi, p - head.len())
    }
}

/// Every entry of a bucket in a block of cells is an entry of the block.
pub proof fn lemma_block_has(
    g: GridModel,
    x_lo: int,
    x_hi: int,
    y_lo: int,
    y_hi: int,
    cx: int,
    cy: int,
    k: int,
)
    requires
        x_lo <= cx <= x_hi,
        y_lo <= cy <= y_hi,
        0 <= k < g.buckets[cy * g.width + cx].len(),
    ensures
        g.block(x_lo, x_hi, y_lo, y_hi).contains(g.buckets[cy * g.width + cx][k]),
    decreases y_hi - y_lo,
{
    let head = g.block(x_lo, x_hi, y_lo, y_hi - 1);
    let tail = g.row_span(y_hi, x_lo, x_hi);
    let v = g.buckets[cy * g.width + cx][k];
    if cy == y_hi {
        lemma_row_span_has(g, cy, x_lo, x_hi, cx, k);
        let p = choose|p: int| 0 <= p < tail.len() && tail[p] == v;
        assert((head + tail)[head.len() + p] == v);
    } else {
        lemma_block_has(g, x_lo, x_hi, y_lo, y_hi - 1, cx, cy, k);
        let p = choose|p: int| 0 <= p < head.len() && head[p] == v;
        assert((head + tail)[p] == v);
    }
}

/// Every entry of a block of cells is an entry of a bucket in the block: the
/// result gives the column, the row and the place in that cell's bucket.
pub proof fn lemma_block_from(g: GridModel, x_lo: int, x_hi: int, y_lo: int, y_hi: int, p: int) -> (at:
    (int, int, int))
    requires
        0 <= p < g.block(x_lo, x_hi, y_lo, y_hi).len(),
    ensures
        x_lo <= at.0 <= x_hi,
        y_lo <= at.1 <= y_hi,
        0 <= at.2 < g.buckets[at.1 * g.width + at.0].len(),
        g.buckets[at.1 * g.width + at.0][at.2] == g.block(x_lo, x_hi, y_lo, y_hi)[p],
    decreases y_hi - y_lo,
{
    let head = g.block(x_lo, x_hi, y_lo, y_hi - 1);
    if y_hi < y_lo {
        (0, 0, 0)
    } else if p < head.len() {
        lemma_block_from(g, x_lo, x_hi, y_lo, y_hi - 1, p)
    } else {
        let at = lemma_row_span_from(g, y_hi, x_lo, x_hi, p - head.len());
        (at.0, y_hi, at.1)
    }
}

/// In a grid that files a flock, every entry of a block of cells of the
/// grid is a place in the flock.
pub proof fn lemma_block_entries_in_flock(
    g: GridModel,
    flock: Seq<Boid>,
    x_lo: int,
    x_hi: int,
    y_lo: int,
    y_hi: int,
)
    requires
        g.files(flock),
        0 <= x_lo,
        x_hi < g.width,
        0 <= y_lo,
        y_hi < g.height,
    ensures
        forall|p: int|
            0 <= p < g.block(x_lo, x_hi, y_lo, y_hi).len() ==> (#[trigger] g.block(
                x_lo,
                x_hi,
                y_lo,
                y_hi,
            )[p]) < flock.len(),
{
    let all = g.block(x_lo, x_hi, y_lo, y_hi);
    assert forall|p: int| 0 <= p < all.len() implies (#[trigger] all[p]) < flock.len() by {
        let at = lemma_block_from(g, x_lo, x_hi, y_lo, y_hi, p);
        lemma_cell_in_grid(at.0, at.1, g.width, g.height);
        assert(g.belongs(flock, at.1 * g.width + at.0, g.buckets[at.1 * g.width + at.0][at.2]));
    }
}

/// In a grid that files a flock, no agent occurs twice in a span of a row.
pub proof fn lemma_row_span_no_duplicates(
    g: GridModel,
    flock: Seq<Boid>,
    row: int,
    x_lo: int,
    x_hi: int,
)
    requires
        g.files(flock),
        0 <= row < g.height,
        0 <= x_lo,
        x_hi < g.width,
    ensures
        g.row_span(row, x_lo, x_hi).no_duplicates(),
    decreases x_hi - x_lo + 1,
{
    if x_hi >= x_lo {
        let head = g.row_span(row, x_lo, x_hi - 1);
        let tail = g.buckets[row * g.width + x_hi];
        lemma_row_span_no_duplicates(g, flock, row, x_lo, x_hi - 1);
        lemma_cell_in_grid(x_hi, row, g.width, g.height);
        assert(tail.no_duplicates());
        assert forall|p: int, q: int| 0 <= p < head.len() && 0 <= q < tail.len() implies head[p]
            != tail[q] by {
            let at = lemma_row_span_from(g, row, x_lo, x_hi - 1, p);
            lemma_cell_in_grid(at.0, row, g.width, g.height);
            let c1 = row * g.width + at.0;
            let c2 = row * g.width + x_hi;
            assert(g.belongs(flock, c1, g.buckets[c1][at.1]));
            assert(g.belongs(flock, c2, g.buckets[c2][q]));
        }
        lemma_no_dup_in_concat(head, tail);
    }
}

/// In a grid that files a flock, no agent occurs twice in a block of cells.
pub proof fn lemma_block_no_duplicates(
    g: GridModel,
    flock: Seq<Boid>,
    x_lo: int,
    x_hi: int,
    y_lo: int,
    y_hi: int,
)
    requires
        g.files(flock),
        0 <= x_lo,
        x_hi < g.width,
        0 <= y_lo,
        y_hi < g.height,
    ensures
        g.block(x_lo, x_hi, y_lo, y_hi).no_duplicates(),
    decreases y_hi - y_lo + 1,
{
    if y_hi >= y_lo {
        let head = g.block(x_lo, x_hi, y_lo, y_hi - 1);
        let tail = g.row_span(y_hi, x_lo, x_hi);
        lemma_block_no_duplicates(g, flock, x_lo, x_hi, y_lo, y_hi - 1);
        lemma_row_span_no_duplicates(g, flock, y_hi, x_lo, x_hi);
        assert forall|p: int, q: int| 0 <= p < head.len() && 0 <= q < tail.len() implies head[p]
            != tail[q] by {
            let a = lemma_block_from(g, x_lo, x_hi, y_lo, y_hi - 1, p);
            let b = lemma_row_span_from(g, y_hi, x_lo, x_hi, q);
            lemma_cell_in_grid(a.0, a.1, g.width, g.height);
            lemma_cell_in_grid(b.0, y_hi, g.width, g.height);
            let c1 = a.1 * g.width + a.0;
            let c2 = y_hi * g.width + b.0;
            assert(g.belongs(flock, c1, g.buckets[c1][a.2]));
            assert(g.belongs(flock, c2, g.buckets[c2][b.1]));
            if head[p] == tail[q] {
                lemma_cell_number_unique(g.width, a.0, a.1, b.0, y_hi);
            }
        }
        lemma_no_dup_in_concat(head, tail);
    }
}

/// The places of a flock of `n` agents.
pub open spec fn places(n: nat) -> Set<usize> {
    Set::new(|v: usize| v < n)
}

/// A flock of `n` agents has `n` places.
pub proof fn lemma_places_len(n: nat)
    requires
        n <= usize::MAX + 1,
    ensures
        places(n).finite(),
        places(n).len() == n,
    decreases n,
{
    if n == 0 {
        assert(places(0) =~= Set::<usize>::empty());
    } else {
        let fewer = (n - 1) as nat;
        lemma_places_len(fewer);
        assert(places(n) =~= places(fewer).insert(fewer as usize));
    }
}

/// After a rebuild, the buckets together hold each place of the flock
/// exactly once and nothing else: what is filed is the places of the flock
/// in some order, with none left out and none twice.
pub proof fn lemma_partition_exact(g: GridModel, flock: Seq<Boid>)
    requires
        g.wf(),
        flock.len() <= usize::MAX,
    ensures
        g.rebuilt(flock).all_filed().len() == flock.len(),
        g.rebuilt(flock).all_filed().to_set() == places(flock.len()),
        g.rebuilt(flock).all_filed().no_duplicates(),
        forall|v: usize| v < flock.len() ==> #[trigger] g.rebuilt(flock).all_filed().contains(v),
        forall|p: int|
            0 <= p < g.rebuilt(flock).all_filed().len() ==> (#[trigger] g.rebuilt(
                flock,
            ).all_filed()[p]) < flock.len(),
{
    let after = g.rebuilt(flock);
    lemma_rebuilt_files(g, flock);
    lemma_block_no_duplicates(after, flock, 0, after.width - 1, 0, after.height - 1);
    lemma_block_entries_in_flock(after, flock, 0, after.width - 1, 0, after.height - 1);
    assert forall|v: usize| v < flock.len() implies #[trigger] after.all_filed().contains(v) by {
        let i = v as int;
        lemma_filed_at_home(after, flock, i);
        let x = after.column(flock[i].x as int);
        let y = after.row(flock[i].y as int);
        let bucket = after.buckets[y * after.width + x];
        let k = choose|k: int| 0 <= k < bucket.len() && bucket[k] == v;
        lemma_block_has(after, 0, after.width - 1, 0, after.height - 1, x, y, k);
    }
    let all = after.all_filed();
    assert(all.to_set() =~= places(flock.len())) by {
        assert forall|v: usize| all.to_set().contains(v) implies places(flock.len()).contains(
            v,
        ) by {
            let p = choose|p: int| 0 <= p < all.len() && all[p] == v;
            assert(all[p] < flock.len());
        }
    }
    all.unique_seq_to_set();
    lemma_places_len(flock.len());
}

/// In a grid that files a flock, each agent is in the bucket at the column
/// and row of its position.
pub proof fn lemma_filed_at_home(g: GridModel, flock: Seq<Boid>, i: int)
    requires
        g.files(flock),
        0 <= i < flock.len(),
    ensures
        0 <= g.column(flock[i].x as int) < g.width,
        0 <= g.row(flock[i].y as int) < g.height,
        g.buckets[g.row(flock[i].y as int) * g.width + g.column(flock[i].x as int)].contains(
            i as usize,
        ),
{
    lemma_cell_index_in_grid(g, flock[i].x as int, flock[i].y as int);
    assert(g.buckets[g.home(flock, i)].contains(i as usize));
}

/// Two positions no further apart than the side of a cell lie in the same
/// cell or in cells next to each other.
pub proof fn lemma_near_cells(a: int, b: int, cell_size: int)
    requires
        cell_size >= 1,
        -cell_size <= a - b <= cell_size,
    ensures
        -1 <= floor_div(a, cell_size) - floor_div(b, cell_size) <= 1,
{
    let qa = a / cell_size;
    let qb = b / cell_size;
    vstd::arithmetic::div_mod::lemma_fundamental_div_mod(a, cell_size);
    vstd::arithmetic::div_mod::lemma_fundamental_div_mod(b, cell_size);
    if qa - qb >= 2 {
        assert(cell_size * qa - cell_size * qb >= 2 * cell_size) by (nonlinear_arith)
            requires
                qa - qb >= 2,
                cell_size >= 1,
        ;
    } else if qb - qa >= 2 {
        assert(cell_size * qb - cell_size * qa >= 2 * cell_size) by (nonlinear_arith)
            requires
                qb - qa >= 2,
                cell_size >= 1,
        ;
    }
}

/// An offset whose square, together with another square, stays within the
/// square of a range is itself within the range.
pub proof fn lemma_offset_within(d: int, e: int, range: int)
    requires
        range >= 0,
        d * d + e * e <= range * range,
    ensures
        -range <= d <= range,
{
    assert(e * e >= 0) by (nonlinear_arith);
    if d > range {
        assert(d * d > range * range) by (nonlinear_arith)
            requires
                d > range,
                range >= 0,
        ;
    } else if d < -range {
        assert(d * d > range * range) by (nonlinear_arith)
            requires
                d < -range,
                range >= 0,
        ;
    }
}

/// A query finds every agent within its range: in a grid that files the
/// flock, an agent whose true distance from the position is at most
/// `range`, where `range` is at most the side of a cell, is among the
/// candidates of the query at that position, wherever the position and the
/// agent are, inside the world or outside.
pub proof fn lemma_query_superset(
    g: GridModel,
    flock: Seq<Boid>,
    x: int,
    y: int,
    range: int,
    j: int,
)
    requires
        g.files(flock),
        0 <= range <= g.cell_size,
        0 <= j < flock.len(),
        (x - flock[j].x) * (x - flock[j].x) + (y - flock[j].y) * (y - flock[j].y) <= range
            * range,
    ensures
        g.candidates(x, y, range).contains(j as usize),
{
    let bx = flock[j].x as int;
    let by = flock[j].y as int;
    lemma_offset_within(x - bx, y - by, range);
    lemma_offset_within(y - by, x - bx, range);
    lemma_near_cells(x, bx, g.cell_size);
    lemma_near_cells(y, by, g.cell_size);
    crate::spatial_grid::lemma_ceil_div_bounds(range, g.cell_size);
    lemma_filed_at_home(g, flock, j);
    let column = g.column(bx);
    let row = g.row(by);
    let bucket = g.buckets[row * g.width + column];
    let k = choose|k: int| 0 <= k < bucket.len() && bucket[k] == j as usize;
    let radius = g.cell_radius(range);
    let cx = g.column(x);
    let cy = g.row(y);
    lemma_block_has(
        g,
        vstd::math::max(cx - radius, 0),
        vstd::math::min(cx + radius, g.width - 1),
        vstd::math::max(cy - radius, 0),
        vstd::math::min(cy + radius, g.height - 1),
        column,
        row,
        k,
    );
}

} // verus!
