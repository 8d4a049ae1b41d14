//! A uniform grid over the world that files agents by cell, so that the
//! agents near a position are found without looking at the whole flock.
//!
//! The grid holds places in the flock, never agents. A query returns every
//! agent filed in the cells around a position: all that can be in range, and
//! possibly some that are not.

use vstd::prelude::*;
use vstd::math::max;
use vstd::math::min;
use crate::boid::Boid;
use crate::config::ConfigError;
use crate::fixed::ceil_div;
use crate::fixed::ceil_div_i64;
use crate::fixed::floor_div;
use crate::fixed::floor_div_i64;

verus! {

/// Most columns or rows a grid can have.
pub const MAX_GRID_DIM: usize = 0x7fff_ffff;

/// Most cells a grid may have: as many as 32 bits can number.
pub const MAX_CELLS: usize = 0xffff_ffff;

/// `v` brought into the range from `lo` to `hi`.
pub open spec fn clamp(v: int, lo: int, hi: int) -> int {
    if v < lo {
        lo
    } else if v > hi {
        hi
    } else {
        v
    }
}

/// Why a grid over a world of the given size cannot be built, if it cannot.
pub open spec fn grid_error(world_width: int, world_height: int, cell_size: int) -> Option<
    ConfigError,
> {
    if world_width <= 0 || world_height <= 0 {
        Some(ConfigError::NonPositiveWorld)
    } else if cell_size <= 0 {
        Some(ConfigError::NonPositiveCellSize)
    } else if ceil_div(world_width, cell_size) * ceil_div(world_height, cell_size) > MAX_CELLS {
        Some(ConfigError::GridTooLarge)
    } else {
        None
    }
}

/// What a grid is: its cell size, its numbers of columns and rows, and for
/// each cell, row by row, the agents filed there in the order of filing.
pub struct GridModel {
    pub cell_size: int,
    pub width: int,
    pub height: int,
    pub buckets: Seq<Seq<usize>>,
}

impl GridModel {
    /// The grid has a positive cell size, at least one column and one row,
    /// and one bucket per cell.
    pub open spec fn wf(self) -> bool {
        &&& self.cell_size >= 1
        &&& 1 <= self.width <= MAX_GRID_DIM
        &&& 1 <= self.height <= MAX_GRID_DIM
        &&& self.buckets.len() == self.width * self.height
    }

    /// The grid over a world of the given size, with nothing filed: as many
    /// columns and rows as cells are needed to cover the world.
    pub open spec fn empty(world_width: int, world_height: int, cell_size: int) -> GridModel {
        let width = ceil_div(world_width, cell_size);
        let height = ceil_div(world_height, cell_size);
        GridModel {
            cell_size,
            width,
            height,
            buckets: Seq::new((width * height) as nat, |c: int| Seq::<usize>::empty()),
        }
    }

    /// The same grid with nothing filed.
    pub open spec fn cleared(self) -> GridModel {
        GridModel {
            buckets: Seq::new(self.buckets.len(), |c: int| Seq::<usize>::empty()),
            ..self
        }
    }

    /// The column of a horizontal position: the position divided by the
    /// cell size, rounded down, and brought into the grid.
    pub open spec fn column(self, x: int) -> int {
        clamp(floor_div(x, self.cell_size), 0, self.width - 1)
    }

    /// The row of a vertical position: the position divided by the cell
    /// size, rounded down, and brought into the grid.
    pub open spec fn row(self, y: int) -> int {
        clamp(floor_div(y, self.cell_size), 0, self.height - 1)
    }

    /// The number of the cell that a position is filed in.
    pub open spec fn cell_index(self, x: int, y: int) -> int {
        self.row(y) * self.width + self.column(x)
    }

    /// The grid after the agent at place `index` of the flock has been filed
    /// by its position.
    pub open spec fn inserted(self, index: usize, x: int, y: int) -> GridModel {
        let c = self.cell_index(x, y);
        GridModel { buckets: self.buckets.update(c, self.buckets[c].push(index)), ..self }
    }

    /// The grid after it has been cleared and every agent of the flock has
    /// been filed, in the order of the flock.
    pub open spec fn rebuilt(self, flock: Seq<Boid>) -> GridModel
        decreases flock.len(),
    {
        if flock.len() == 0 {
            self.cleared()
        } else {
            self.rebuilt(flock.drop_last()).inserted(
                (flock.len() - 1) as usize,
                flock.last().x as int,
                flock.last().y as int,
            )
        }
    }

    /// How many cells a query looks in each direction from the cell of its
    /// centre: the range in cells, rounded up and not below zero, plus one.
    pub open spec fn cell_radius(self, range: int) -> int {
        max(ceil_div(range, self.cell_size), 0) + 1
    }

    /// The agents filed in the cells of one row from column `x_lo` to column
    /// `x_hi`, column by column.
    pub open spec fn row_span(self, row: int, x_lo: int, x_hi: int) -> Seq<usize>
        decreases x_hi - x_lo + 1,
    {
        if x_hi < x_lo {
            Seq::empty()
        } else {
            self.row_span(row, x_lo, x_hi - 1) + self.buckets[row * self.width + x_hi]
        }
    }

    /// The agents filed in the cells from column `x_lo` to `x_hi` of the
    /// rows from `y_lo` to `y_hi`, row by row.
    pub open spec fn block(self, x_lo: int, x_hi: int, y_lo: int, y_hi: int) -> Seq<usize>
        decreases y_hi - y_lo + 1,
    {
        if y_hi < y_lo {
            Seq::empty()
        } else {
            self.block(x_lo, x_hi, y_lo, y_hi - 1) + self.row_span(y_hi, x_lo, x_hi)
        }
    }

    /// The candidates for a query: the agents filed in the square of cells
    /// that reaches `cell_radius(range)` cells in each direction from the
    /// cell of the position, as far as those cells lie in the grid. The cell
    /// of the position is the one an agent there is filed in, so a position
    /// outside the world is looked up from the nearest cell.
    pub open spec fn candidates(self, x: int, y: int, range: int) -> Seq<usize> {
        let radius = self.cell_radius(range);
        let cx = self.column(x);
        let cy = self.row(y);
        self.block(
            max(cx - radius, 0),
            min(cx + radius, self.width - 1),
            max(cy - radius, 0),
            min(cy + radius, self.height - 1),
        )
    }
}

/// The grid: one bucket of places in the flock per cell.
pub struct SpatialGrid {
    cells: Vec<Vec<usize>>,
    cell_size: i32,
    width: usize,
    height: usize,
}

impl View for SpatialGrid {
    type V = GridModel;

    closed spec fn view(&self) -> GridModel {
        GridModel {
            cell_size: self.cell_size as int,
            width: self.width as int,
            height: self.height as int,
            buckets: Seq::new(self.cells@.len(), |c: int| self.cells@[c]@),
        }
    }
}

impl SpatialGrid {
    /// The grid is one that [`SpatialGrid::new`] can have made.
    pub open spec fn wf(&self) -> bool {
        self@.wf()
    }

    /// Builds the grid over a world of the given size, with nothing filed.
    ///
    /// Fails when a dimension of the world or the cell size is not positive,
    /// or when the grid would have more than [`MAX_CELLS`] cells.
    pub fn new(window_width: i32, window_height: i32, cell_size: i32) -> (r: Result<
        SpatialGrid,
        ConfigError,
    >)
        ensures
            match r {
                Ok(g) => grid_error(window_width as int, window_height as int, cell_size as int)
                    is None && g.wf() && g@ == GridModel::empty(
                    window_width as int,
                    window_height as int,
                    cell_size as int,
                ),
                Err(e) => grid_error(window_width as int, window_height as int, cell_size as int)
                    == Some(e),
            },
    {
        if window_width <= 0 || window_height <= 0 {
            return Err(ConfigError::NonPositiveWorld);
        }
        if cell_size <= 0 {
            return Err(ConfigError::NonPositiveCellSize);
        }
        let wide: i64 = ceil_div_i64(window_width as i64, cell_size as i64);
        let high: i64 = ceil_div_i64(window_height as i64, cell_size as i64);
        proof {
            lemma_ceil_div_bounds(window_width as int, cell_size as int);
            lemma_ceil_div_bounds(window_height as int, cell_size as int);
            assert(1 <= wide * high <= 0x7fff_ffff * 0x7fff_ffff) by (nonlinear_arith)
                requires
                    1 <= wide <= 0x7fff_ffff,
                    1 <= high <= 0x7fff_ffff,
            ;
        }
        let count: u64 = (wide * high) as u64;
        if count > MAX_CELLS as u64 {
            return Err(ConfigError::GridTooLarge);
        }
        let mut cells: Vec<Vec<usize>> = Vec::new();
        let mut i: u64 = 0;
        while i < count
            invariant
                i <= count,
                cells@.len() == i,
                forall|c: int| 0 <= c < i ==> (#[trigger] cells@[c])@ == Seq::<usize>::empty(),
            decreases count - i,
        {
            cells.push(Vec::new());
            i = i + 1;
        }
        let grid = SpatialGrid { cells, cell_size, width: wide as usize, height: high as usize };
        proof {
            assert(grid@.buckets =~= GridModel::empty(
                window_width as int,
                window_height as int,
                cell_size as int,
            ).buckets);
        }
        Ok(grid)
    }

    /// Empties every bucket.
    pub fn clear(&mut self)
        requires
            old(self).wf(),
        ensures
            final(self).wf(),
            final(self)@ == old(self)@.cleared(),
    {
        let n: usize = self.cells.len();
        let mut i: usize = 0;
        while i < n
            invariant
                i <= n,
                n == self.cells@.len(),
                self.cell_size == old(self).cell_size,
                self.width == old(self).width,
                self.height == old(self).height,
                self.cells@.len() == old(self).cells@.len(),
                forall|c: int| 0 <= c < i ==> (#[trigger] self.cells@[c])@ == Seq::<usize>::empty(),
            decreases n - i,
        {
            self.cells[i].clear();
            i = i + 1;
        }
        proof {
            assert(self@.buckets =~= old(self)@.cleared().buckets);
        }
    }

    /// Files the agent at place `boid_index` of the flock in the cell of its
    /// position. An agent outside the world is filed in the nearest cell.
    pub fn insert(&mut self, boid_index: usize, boid: &Boid)
        requires
            old(self).wf(),
        ensures
            final(self).wf(),
            final(self)@ == old(self)@.inserted(boid_index, boid.x as int, boid.y as int),
    {
        let cell_x: usize = axis_cell(boid.x, self.cell_size, self.width);
        let cell_y: usize = axis_cell(boid.y, self.cell_size, self.height);
        let total: usize = self.cells.len();
        proof {
            lemma_cell_in_grid(cell_x as int, cell_y as int, self.width as int, self.height as int);
            assert(total == self.width * self.height);
        }
        let idx: usize = cell_y * self.width + cell_x;
        self.cells[idx].push(boid_index);
        proof {
            assert(self@.buckets =~= old(self)@.inserted(
                boid_index,
                boid.x as int,
                boid.y as int,
            ).buckets);
        }
    }

    /// The candidates for the neighbours of `boid` within `range`: every
    /// agent filed in the cells around the cell of the agent's position,
    /// which for an agent outside the world is the nearest cell. The caller
    /// still has to compare true distances.
    pub fn get_neighbors(&self, boid: &Boid, range: i32) -> (neighbors: Vec<usize>)
        requires
            self.wf(),
        ensures
            neighbors@ == self@.candidates(boid.x as int, boid.y as int, range as int),
    {
        let mut neighbors: Vec<usize> = Vec::new();
        let reach: i64 = ceil_div_i64(range as i64, self.cell_size as i64);
        proof {
            lemma_ceil_div_bounds(range as int, self.cell_size as int);
        }
        let cell_range: i64 = if reach < 0 {
            1
        } else {
            reach + 1
        };
        let cx: i64 = axis_cell(boid.x, self.cell_size, self.width) as i64;
        let cy: i64 = axis_cell(boid.y, self.cell_size, self.height) as i64;
        let x_lo: i64 = if cx - cell_range < 0 {
            0
        } else {
            cx - cell_range
        };
        let x_hi: i64 = if cx + cell_range > self.width as i64 - 1 {
            self.width as i64 - 1
        } else {
            cx + cell_range
        };
        let y_lo: i64 = if cy - cell_range < 0 {
            0
        } else {
            cy - cell_range
        };
        let y_hi: i64 = if cy + cell_range > self.height as i64 - 1 {
            self.height as i64 - 1
        } else {
            cy + cell_range
        };
        let mut y: i64 = y_lo;
        while y <= y_hi
            invariant
                self.wf(),
                0 <= y_lo <= y,
                y <= y_hi + 1 || y == y_lo,
                y_hi <= self.height - 1,
                0 <= x_lo,
                x_hi <= self.width - 1,
                neighbors@ == self@.block(x_lo as int, x_hi as int, y_lo as int, y - 1),
            decreases y_hi + 1 - y,
        {
            let mut x: i64 = x_lo;
            while x <= x_hi
                invariant
                    self.wf(),
                    0 <= y <= y_hi <= self.height - 1,
                    0 <= x_lo <= x,
                    x <= x_hi + 1 || x == x_lo,
                    x_hi <= self.width - 1,
                    neighbors@ == self@.block(x_lo as int, x_hi as int, y_lo as int, y - 1)
                        + self@.row_span(y as int, x_lo as int, x - 1),
                decreases x_hi + 1 - x,
            {
                let total: usize = self.cells.len();
                proof {
                    lemma_cell_in_grid(x as int, y as int, self.width as int, self.height as int);
                    assert(total == self.width * self.height);
                }
                let idx: usize = (y as usize) * self.width + (x as usize);
                append_all(&mut neighbors, &self.cells[idx]);
                x = x + 1;
            }
            y = y + 1;
        }
        neighbors
    }

    /// The number of columns.
    pub fn width(&self) -> (w: usize)
        ensures
            w == self@.width,
    {
        self.width
    }

    /// The number of rows.
    pub fn height(&self) -> (h: usize)
        ensures
            h == self@.height,
    {
        self.height
    }

    /// The side of a cell.
    pub fn cell_size(&self) -> (s: i32)
        ensures
            s == self@.cell_size,
    {
        self.cell_size
    }

    /// The agents filed in the cell at the given column and row, or nothing
    /// when the grid has no such cell.
    pub fn bucket(&self, column: usize, row: usize) -> (b: Option<&Vec<usize>>)
        requires
            self.wf(),
        ensures
            match b {
                Some(items) => column < self@.width && row < self@.height && items@
                    == self@.buckets[row * self@.width + column],
                None => column >= self@.width || row >= self@.height,
            },
    {
        if column < self.width && row < self.height {
            let total: usize = self.cells.len();
            proof {
                lemma_cell_in_grid(
                    column as int,
                    row as int,
                    self.width as int,
                    self.height as int,
                );
                assert(total == self.width * self.height);
            }
            Some(&self.cells[row * self.width + column])
        } else {
            None
        }
    }
}

/// Appends every item of `items` to `out`.
fn append_all(out: &mut Vec<usize>, items: &Vec<usize>)
    ensures
        final(out)@ == old(out)@ + items@,
{
    let n: usize = items.len();
    let mut i: usize = 0;
    while i < n
        invariant
            i <= n,
            n == items@.len(),
            out@ == old(out)@ + items@.take(i as int),
        decreases n - i,
    {
        out.push(items[i]);
        proof {
            assert(items@.take(i + 1) == items@.take(i as int).push(items@[i as int]));
        }
        i = i + 1;
    }
    proof {
        assert(items@.take(n as int) == items@);
    }
}

/// The column or row of a position on one axis.
fn axis_cell(pos: i32, cell_size: i32, dim: usize) -> (c: usize)
    requires
        cell_size >= 1,
        1 <= dim <= MAX_GRID_DIM,
    ensures
        c == clamp(floor_div(pos as int, cell_size as int), 0, dim - 1),
        c < dim,
{
    let raw: i64 = floor_div_i64(pos as i64, cell_size as i64);
    if raw < 0 {
        0
    } else if raw > dim as i64 - 1 {
        dim - 1
    } else {
        raw as usize
    }
}

/// A column and a row of the grid give the number of one of its cells.
pub proof fn lemma_cell_in_grid(column: int, row: int, width: int, height: int)
    requires
        0 <= column < width,
        0 <= row < height,
    ensures
        0 <= row * width,
        0 <= row * width + column < width * height,
{
    assert(0 <= row * width && row * width + width <= width * height) by (nonlinear_arith)
        requires
            0 <= row,
            row + 1 <= height,
            width >= 1,
    ;
}

/// A quotient rounded up is no further from zero than the dividend, and is
/// positive for a positive dividend.
pub proof fn lemma_ceil_div_bounds(a: int, b: int)
    requires
        b >= 1,
    ensures
        a > 0 ==> 1 <= ceil_div(a, b) <= a,
        a <= 0 ==> a <= ceil_div(a, b) <= 0,
{
    let q = (-a) / b;
    vstd::arithmetic::div_mod::lemma_fundamental_div_mod(-a, b);
    assert(-a == b * q + (-a) % b);
    if a > 0 {
        assert(-a <= q <= -1) by (nonlinear_arith)
            requires
                -a == b * q + (-a) % b,
                0 <= (-a) % b < b,
                a > 0,
                b >= 1,
        ;
    } else {
        assert(0 <= q <= -a) by (nonlinear_arith)
            requires
                -a == b * q + (-a) % b,
                0 <= (-a) % b < b,
                a <= 0,
                b >= 1,
        ;
    }
}

} // verus!
