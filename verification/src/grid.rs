//! The uniform spatial grid: the simulated rectangle, centred at the
//! origin, is split into `rows x columns` square cells of side
//! `cell_size`, and each cell holds the snapshots of the agents standing
//! in it this tick. Rebuilt once per tick, read-only afterwards.
use vstd::prelude::*;
use crate::boid::AgentKind;
use crate::math::{div_q, div_t, int_abs};
use crate::vec2::Vec2I;
use crate::{POS_LIMIT, UNIT};

verus! {

/// Largest number of cells a grid may hold: what a world of full extent
/// partitioned into the smallest usable cells would need.
pub const GRID_CELLS_LIMIT: usize = 268435456;

/// Why a world position could not be resolved to a cell.
#[derive(Clone, Copy, PartialEq, Eq, Structural, Debug)]
pub enum GridError {
    /// The position lies outside the rectangle the grid covers.
    OutOfBounds,
}

/// The snapshot of one agent as the grid saw it when it was rebuilt.
#[derive(Clone, Copy, PartialEq, Eq, Structural, Debug)]
pub struct SpatialGridBoid {
    pub id: u64,
    pub kind: AgentKind,
    pub position: Vec2I,
    pub velocity: Vec2I,
}

impl SpatialGridBoid {
    pub fn new(id: u64, kind: AgentKind, position: Vec2I, velocity: Vec2I) -> (r: SpatialGridBoid)
        ensures
            r == (SpatialGridBoid { id, kind, position, velocity }),
    {
        SpatialGridBoid { id, kind, position, velocity }
    }
}

/// One square cell: its grid coordinates, the lowest corner of its
/// bounding rectangle, its side length, and the snapshots placed into it
/// this tick.
#[derive(Clone, Debug)]
pub struct SpatialGridCell {
    pub row: usize,
    pub column: usize,
    pub min: Vec2I,
    pub size: i64,
    pub boids: Vec<SpatialGridBoid>,
}

impl SpatialGridCell {
    /// The point lies in the cell's bounding rectangle, closed on all
    /// edges (adjacent cells share their boundary, as an axis-aligned
    /// rectangle membership test has it).
    pub open spec fn spec_contains(self, p: Vec2I) -> bool {
        &&& self.min.x <= p.x <= self.min.x + self.size
        &&& self.min.y <= p.y <= self.min.y + self.size
    }

    /// A fresh, empty cell.
    pub fn new(row: usize, column: usize, size: i64, min: Vec2I) -> (r: SpatialGridCell)
        ensures
            r.row == row && r.column == column && r.min == min && r.size == size,
            r.boids@ =~= Seq::<SpatialGridBoid>::empty(),
    {
        SpatialGridCell { row, column, min, size, boids: Vec::new() }
    }

    /// Appends one agent snapshot.
    pub fn push(&mut self, boid: SpatialGridBoid)
        ensures
            final(self).boids@ == old(self).boids@.push(boid),
            final(self).row == old(self).row && final(self).column == old(self).column,
            final(self).min == old(self).min && final(self).size == old(self).size,
    {
        self.boids.push(boid);
    }

    /// Side length of the cell's square.
    pub fn size(&self) -> (r: i64)
        ensures
            r == self.size,
    {
        self.size
    }

    /// Centre of the cell's bounding rectangle.
    pub fn location(&self) -> (r: Vec2I)
        requires
            0 <= self.size <= 4 * POS_LIMIT,
            int_abs(self.min.x as int) <= 4 * POS_LIMIT,
            int_abs(self.min.y as int) <= 4 * POS_LIMIT,
        ensures
            r.x == self.min.x + self.size / 2,
            r.y == self.min.y + self.size / 2,
    {
        Vec2I { x: self.min.x + self.size / 2, y: self.min.y + self.size / 2 }
    }

    /// The snapshots placed into this cell during the current tick.
    pub fn cell_boids(&self) -> (r: &Vec<SpatialGridBoid>)
        ensures
            r == &self.boids,
    {
        &self.boids
    }

    /// Whether the point lies in the cell's bounding rectangle.
    pub fn contains(&self, location: Vec2I) -> (r: bool)
        requires
            0 <= self.size <= 4 * POS_LIMIT,
            int_abs(self.min.x as int) <= 4 * POS_LIMIT,
            int_abs(self.min.y as int) <= 4 * POS_LIMIT,
        ensures
            r == self.spec_contains(location),
    {
        self.min.x <= location.x && location.x <= self.min.x + self.size && self.min.y
            <= location.y && location.y <= self.min.y + self.size
    }
}

/// The uniform grid over the simulated rectangle.
#[derive(Clone, Debug)]
pub struct SpatialGrid {
    pub cells: Vec<SpatialGridCell>,
    pub rows: usize,
    pub columns: usize,
    pub cell_size: i64,
}

impl SpatialGrid {
    /// Width of the covered rectangle.
    pub open spec fn spec_width(self) -> int {
        self.columns * self.cell_size
    }

    /// Height of the covered rectangle.
    pub open spec fn spec_height(self) -> int {
        self.rows * self.cell_size
    }

    /// Horizontal distance from the origin to the left edge.
    pub open spec fn spec_half_w(self) -> int {
        self.spec_width() / 2
    }

    /// Vertical distance from the origin to the bottom edge.
    pub open spec fn spec_half_h(self) -> int {
        self.spec_height() / 2
    }

    /// Cell `i` carries the grid coordinates and bounding rectangle that
    /// its position in the row-major cell list dictates.
    pub open spec fn spec_cell_wf(self, i: int) -> bool {
        let c = self.cells@[i];
        &&& c.row == i / (self.columns as int)
        &&& c.column == i % (self.columns as int)
        &&& c.size == self.cell_size
        &&& c.min.x == (i % (self.columns as int)) * self.cell_size - self.spec_half_w()
        &&& c.min.y == (i / (self.columns as int)) * self.cell_size - self.spec_half_h()
    }

    /// The grid geometry is well formed: at least one cell, cells larger
    /// than a pixel, the covered rectangle inside the world limits, and
    /// the cell list laid out row-major.
    pub open spec fn wf(self) -> bool {
        &&& 1 <= self.rows
        &&& 1 <= self.columns
        &&& self.rows * self.columns <= GRID_CELLS_LIMIT
        &&& UNIT < self.cell_size
        &&& self.columns * self.cell_size <= 2 * POS_LIMIT
        &&& self.rows * self.cell_size <= 2 * POS_LIMIT
        &&& self.cells@.len() == self.rows * self.columns
        &&& forall|i: int| 0 <= i < self.cells@.len() ==> #[trigger] self.spec_cell_wf(i)
    }

    /// The point lies in the rectangle the grid covers.
    pub open spec fn spec_in_range(self, p: Vec2I) -> bool {
        &&& -self.spec_half_w() <= p.x < self.spec_width() - self.spec_half_w()
        &&& -self.spec_half_h() <= p.y < self.spec_height() - self.spec_half_h()
    }

    /// Column owning the point's horizontal coordinate.
    pub open spec fn spec_col_of(self, p: Vec2I) -> int {
        (p.x + self.spec_half_w()) / (self.cell_size as int)
    }

    /// Row owning the point's vertical coordinate.
    pub open spec fn spec_row_of(self, p: Vec2I) -> int {
        (p.y + self.spec_half_h()) / (self.cell_size as int)
    }

    /// Row-major index of the cell owning the point.
    pub open spec fn spec_cell_index_of(self, p: Vec2I) -> int {
        self.spec_row_of(p) * self.columns + self.spec_col_of(p)
    }

    /// Allocates the grid, all cells empty. Degenerate geometry (no rows,
    /// no columns, cells not above pixel size) is excluded by contract, as
    /// is a rectangle beyond the world limits.
    pub fn new(rows: usize, columns: usize, cell_size: i64) -> (r: SpatialGrid)
        requires
            1 <= rows,
            1 <= columns,
            rows * columns <= GRID_CELLS_LIMIT,
            UNIT < cell_size,
            columns * cell_size <= 2 * POS_LIMIT,
            rows * cell_size <= 2 * POS_LIMIT,
        ensures
            r.wf(),
            r.rows == rows && r.columns == columns && r.cell_size == cell_size,
            forall|i: int| 0 <= i < r.cells@.len() ==> (#[trigger] r.cells@[i]).boids@.len() == 0,
    {
        let mut cells: Vec<SpatialGridCell> = Vec::new();
        proof {
            assert(0 <= columns * cell_size && 0 <= rows * cell_size && columns <= columns
                * cell_size && rows <= rows * cell_size) by (nonlinear_arith)
                requires
                    1 <= columns && 1 <= rows && 1 <= cell_size,
            ;
        }
        let half_w: i64 = (columns as i64) * cell_size / 2;
        let half_h: i64 = (rows as i64) * cell_size / 2;
        let mut r: usize = 0;
        while r < rows
            invariant
                r <= rows,
                1 <= rows && 1 <= columns,
                rows * columns <= GRID_CELLS_LIMIT,
                UNIT < cell_size,
                columns * cell_size <= 2 * POS_LIMIT,
                rows * cell_size <= 2 * POS_LIMIT,
                half_w == (columns * cell_size) / 2,
                half_h == (rows * cell_size) / 2,
                cells@.len() == r * columns,
                forall|i: int|
                    0 <= i < cells@.len() ==> #[trigger] (SpatialGrid {
                        cells,
                        rows,
                        columns,
                        cell_size,
                    }).spec_cell_wf(i),
                forall|i: int| 0 <= i < cells@.len() ==> (#[trigger] cells@[i]).boids@.len() == 0,
            decreases rows - r,
        {
            let mut c: usize = 0;
            while c < columns
                invariant
                    r < rows,
                    c <= columns,
                    1 <= rows && 1 <= columns,
                    rows * columns <= GRID_CELLS_LIMIT,
                    UNIT < cell_size,
                    columns * cell_size <= 2 * POS_LIMIT,
                    rows * cell_size <= 2 * POS_LIMIT,
                    half_w == (columns * cell_size) / 2,
                    half_h == (rows * cell_size) / 2,
                    cells@.len() == r * columns + c,
                    forall|i: int|
                        0 <= i < cells@.len() ==> #[trigger] (SpatialGrid {
                            cells,
                            rows,
                            columns,
                            cell_size,
                        }).spec_cell_wf(i),
                    forall|i: int|
                        0 <= i < cells@.len() ==> (#[trigger] cells@[i]).boids@.len() == 0,
                decreases columns - c,
            {
                proof {
                    assert(r * columns + c < rows * columns) by (nonlinear_arith)
                        requires
                            r < rows && c < columns && columns >= 1,
                    ;
                    assert(0 <= c * cell_size <= columns * cell_size && 0 <= r * cell_size <= rows
                        * cell_size && c <= columns * cell_size && r <= rows * cell_size)
                        by (nonlinear_arith)
                        requires
                            0 <= c <= columns && 0 <= r <= rows && cell_size >= 1,
                    ;
                }
                let min = Vec2I {
                    x: (c as i64) * cell_size - half_w,
                    y: (r as i64) * cell_size - half_h,
                };
                let cell = SpatialGridCell::new(r, c, cell_size, min);
                let ghost prev_cells = cells;
                cells.push(cell);
                proof {
                    let i = cells@.len() - 1;
                    vstd::arithmetic::div_mod::lemma_fundamental_div_mod_converse(
                        i,
                        columns as int,
                        r as int,
                        c as int,
                    );
                    assert((SpatialGrid { cells, rows, columns, cell_size }).spec_cell_wf(i));
                    assert forall|j: int|
                        0 <= j < i implies #[trigger] (SpatialGrid {
                        cells,
                        rows,
                        columns,
                        cell_size,
                    }).spec_cell_wf(j) by {
                        assert((SpatialGrid {
                            cells: prev_cells,
                            rows,
                            columns,
                            cell_size,
                        }).spec_cell_wf(j));
                        assert(cells@[j] == prev_cells@[j]);
                    }
                }
                c = c + 1;
            }
            proof {
                assert((r + 1) * columns == r * columns + columns) by (nonlinear_arith);
            }
            r = r + 1;
        }
        SpatialGrid { cells, rows, columns, cell_size }
    }

    /// Builds the grid that covers a rectangle of the given pixel extent
    /// with square cells of the given size, as many whole cells per axis
    /// as fit.
    pub fn with_cell_size(cell_size: i64, width: i64, height: i64) -> (r: SpatialGrid)
        requires
            UNIT < cell_size,
            cell_size <= width <= 2 * POS_LIMIT,
            cell_size <= height <= 2 * POS_LIMIT,
        ensures
            r.wf(),
            r.rows == height / cell_size && r.columns == width / cell_size && r.cell_size
                == cell_size,
            forall|i: int| 0 <= i < r.cells@.len() ==> (#[trigger] r.cells@[i]).boids@.len() == 0,
    {
        let columns = div_q(width, cell_size) as usize;
        let rows = div_q(height, cell_size) as usize;
        proof {
            vstd::arithmetic::div_mod::lemma_div_pos_is_pos(width as int, cell_size as int);
            vstd::arithmetic::div_mod::lemma_div_pos_is_pos(height as int, cell_size as int);
            vstd::arithmetic::div_mod::lemma_div_non_zero(width as int, cell_size as int);
            vstd::arithmetic::div_mod::lemma_div_non_zero(height as int, cell_size as int);
            vstd::arithmetic::div_mod::lemma_fundamental_div_mod(width as int, cell_size as int);
            vstd::arithmetic::div_mod::lemma_fundamental_div_mod(height as int, cell_size as int);
            assert(columns * cell_size <= width && rows * cell_size <= height) by (nonlinear_arith)
                requires
                    cell_size > 0 && columns == (width as int) / (cell_size as int) && rows == (
                    height as int) / (cell_size as int) && width >= cell_size && height
                        >= cell_size && (width as int) == (cell_size as int) * ((width as int) / (
                    cell_size as int)) + (width as int) % (cell_size as int) && (height as int) == (
                    cell_size as int) * ((height as int) / (cell_size as int)) + (height as int) % (
                    cell_size as int) && (width as int) % (cell_size as int) >= 0 && (
                    height as int) % (cell_size as int) >= 0,
            ;
            assert(rows <= 15984 && columns <= 15984) by (nonlinear_arith)
                requires
                    0 <= rows && 0 <= columns && rows * cell_size <= 16000000 && columns
                        * cell_size <= 16000000 && cell_size >= 1001,
            ;
            assert(rows * columns <= GRID_CELLS_LIMIT) by (nonlinear_arith)
                requires
                    0 <= rows <= 15984 && 0 <= columns <= 15984 && GRID_CELLS_LIMIT
                        == 268435456usize,
            ;
        }
        SpatialGrid::new(rows, columns, cell_size)
    }

    /// The cell list, row-major.
    pub fn cells(&self) -> (r: &Vec<SpatialGridCell>)
        ensures
            r == &self.cells,
    {
        &self.cells
    }

    pub fn columns(&self) -> (r: usize)
        ensures
            r == self.columns,
    {
        self.columns
    }

    pub fn rows(&self) -> (r: usize)
        ensures
            r == self.rows,
    {
        self.rows
    }

    /// Side length of every cell.
    pub fn cell_size(&self) -> (r: i64)
        ensures
            r == self.cell_size,
    {
        self.cell_size
    }

    /// Extent of the covered rectangle.
    pub fn grid_size(&self) -> (r: Vec2I)
        requires
            self.wf(),
        ensures
            r.x == self.spec_width() && r.y == self.spec_height(),
            0 <= r.x <= 2 * POS_LIMIT && 0 <= r.y <= 2 * POS_LIMIT,
    {
        proof {
            assert(0 <= self.columns * self.cell_size && 0 <= self.rows * self.cell_size
                && self.columns <= self.columns * self.cell_size && self.rows <= self.rows
                * self.cell_size) by (nonlinear_arith)
                requires
                    1 <= self.columns && 1 <= self.rows && 1 <= self.cell_size,
            ;
        }
        Vec2I { x: (self.columns as i64) * self.cell_size, y: (self.rows as i64) * self.cell_size }
    }

    /// Distances from the origin to the left and bottom edges.
    fn half_extents(&self) -> (r: (i64, i64))
        requires
            self.wf(),
        ensures
            r.0 == self.spec_half_w() && r.1 == self.spec_half_h(),
            0 <= r.0 <= POS_LIMIT && 0 <= r.1 <= POS_LIMIT,
    {
        let size = self.grid_size();
        (size.x / 2, size.y / 2)
    }

    /// Empties every cell's snapshot list; geometry is untouched.
    pub fn clear(&mut self)
        requires
            old(self).wf(),
        ensures
            final(self).wf(),
            final(self).rows == old(self).rows && final(self).columns == old(self).columns
                && final(self).cell_size == old(self).cell_size,
            final(self).cells@.len() == old(self).cells@.len(),
            forall|i: int|
                0 <= i < final(self).cells@.len() ==> {
                    let c = #[trigger] final(self).cells@[i];
                    let o = old(self).cells@[i];
                    c.row == o.row && c.column == o.column && c.min == o.min && c.size == o.size
                        && c.boids@.len() == 0
                },
    {
        let ghost orig = *self;
        let n = self.cells.len();
        let mut i: usize = 0;
        while i < n
            invariant
                i <= n,
                n == self.cells@.len(),
                self.rows == orig.rows && self.columns == orig.columns && self.cell_size
                    == orig.cell_size,
                self.cells@.len() == orig.cells@.len(),
                forall|j: int|
                    0 <= j < n ==> {
                        let c = #[trigger] self.cells@[j];
                        let o = orig.cells@[j];
                        c.row == o.row && c.column == o.column && c.min == o.min && c.size
                            == o.size && (j < i ==> c.boids@.len() == 0) && (j >= i ==> c.boids@
                            == o.boids@)
                    },
            decreases n - i,
        {
            let cell = &mut self.cells[i];
            cell.boids.clear();
            i = i + 1;
        }
        proof {
            assert forall|j: int|
                0 <= j < self.cells@.len() implies #[trigger] self.spec_cell_wf(j) by {
                assert(orig.spec_cell_wf(j));
            }
        }
    }

    /// The cell at the given grid coordinates; coordinates outside the
    /// grid are excluded by contract.
    pub fn at(&self, row: usize, column: usize) -> (r: &SpatialGridCell)
        requires
            self.wf(),
            row < self.rows,
            column < self.columns,
        ensures
            *r == self.cells@[row * self.columns + column],
    {
        proof {
            assert(row * self.columns + column < self.rows * self.columns) by (nonlinear_arith)
                requires
                    row < self.rows && column < self.columns,
            ;
        }
        &self.cells[row * self.columns + column]
    }

    /// The cell at the given grid coordinates, mutably.
    pub fn at_mut(&mut self, row: usize, column: usize) -> (r: &mut SpatialGridCell)
        requires
            old(self).wf(),
            row < old(self).rows,
            column < old(self).columns,
        ensures
            *r == old(self).cells@[row * old(self).columns + column],
            final(self).cells@ == old(self).cells@.update(
                row * old(self).columns + column,
                *final(r),
            ),
            final(self).rows == old(self).rows && final(self).columns == old(self).columns
                && final(self).cell_size == old(self).cell_size,
    {
        proof {
            assert(row * self.columns + column < self.rows * self.columns) by (nonlinear_arith)
                requires
                    row < self.rows && column < self.columns,
            ;
        }
        &mut self.cells[row * self.columns + column]
    }

    /// The cell at the given grid coordinates, or nothing when the
    /// coordinates leave the grid.
    pub fn get(&self, row: usize, column: usize) -> (r: Option<&SpatialGridCell>)
        requires
            self.wf(),
        ensures
            if row < self.rows && column < self.columns {
                r matches Option::Some(c) && *c == self.cells@[row * self.columns + column]
            } else {
                r matches Option::None
            },
    {
        if column >= self.columns || row >= self.rows {
            None
        } else {
            Some(self.at(row, column))
        }
    }

    /// The cell at a row-major index.
    pub fn at_index(&self, index: usize) -> (r: &SpatialGridCell)
        requires
            index < self.cells@.len(),
        ensures
            *r == self.cells@[index as int],
    {
        &self.cells[index]
    }

    /// The cell at a row-major index, mutably.
    pub fn at_index_mut(&mut self, index: usize) -> (r: &mut SpatialGridCell)
        requires
            index < old(self).cells@.len(),
        ensures
            *r == old(self).cells@[index as int],
            final(self).cells@ == old(self).cells@.update(index as int, *final(r)),
            final(self).rows == old(self).rows && final(self).columns == old(self).columns
                && final(self).cell_size == old(self).cell_size,
    {
        &mut self.cells[index]
    }

    /// Row-major index of the cell owning a world position; positions
    /// outside the covered rectangle are excluded by contract, so the
    /// index is always valid and the cell's rectangle contains the
    /// position.
    pub fn index_from_world_position(&self, world_position: Vec2I) -> (r: usize)
        requires
            self.wf(),
            self.spec_in_range(world_position),
        ensures
            r == self.spec_cell_index_of(world_position),
            r < self.cells@.len(),
            self.cells@[r as int].spec_contains(world_position),
    {
        let (half_w, half_h) = self.half_extents();
        let col = div_q(world_position.x + half_w, self.cell_size);
        let row = div_q(world_position.y + half_h, self.cell_size);
        proof {
            lemma_grid_index_round_trip(*self, world_position);
            assert(col == self.spec_col_of(world_position));
            assert(row == self.spec_row_of(world_position));
            assert(0 <= col < self.columns && 0 <= row < self.rows);
            assert((row as usize) * self.columns + (col as usize) == self.spec_cell_index_of(
                world_position,
            ));
        }
        (row as usize) * self.columns + (col as usize)
    }

    /// Row-major index of the cell owning a world position, or an
    /// explicit not-found result for positions outside the covered
    /// rectangle (never a silently wrapped wrong cell).
    pub fn try_index_from_world_position(&self, world_position: Vec2I) -> (r: Result<
        usize,
        GridError,
    >)
        requires
            self.wf(),
        ensures
            self.spec_in_range(world_position) ==> (r matches Result::Ok(i) && i
                == self.spec_cell_index_of(world_position) && i < self.cells@.len()
                && self.cells@[i as int].spec_contains(world_position)),
            !self.spec_in_range(world_position) ==> r == Result::<usize, GridError>::Err(
                GridError::OutOfBounds,
            ),
    {
        let (half_w, half_h) = self.half_extents();
        let size = self.grid_size();
        if world_position.x < -half_w || world_position.x >= size.x - half_w || world_position.y
            < -half_h || world_position.y >= size.y - half_h {
            Err(GridError::OutOfBounds)
        } else {
            Ok(self.index_from_world_position(world_position))
        }
    }

    /// The cell owning a world position.
    pub fn at_world_position(&self, world_position: Vec2I) -> (r: &SpatialGridCell)
        requires
            self.wf(),
            self.spec_in_range(world_position),
        ensures
            *r == self.cells@[self.spec_cell_index_of(world_position)],
            r.spec_contains(world_position),
    {
        let i = self.index_from_world_position(world_position);
        self.at_index(i)
    }

    /// The cell owning a world position, mutably.
    pub fn at_world_position_mut(&mut self, world_position: Vec2I) -> (r: &mut SpatialGridCell)
        requires
            old(self).wf(),
            old(self).spec_in_range(world_position),
        ensures
            *r == old(self).cells@[old(self).spec_cell_index_of(world_position)],
            r.spec_contains(world_position),
            final(self).cells@ == old(self).cells@.update(
                old(self).spec_cell_index_of(world_position),
                *final(r),
            ),
            final(self).rows == old(self).rows && final(self).columns == old(self).columns
                && final(self).cell_size == old(self).cell_size,
    {
        let i = self.index_from_world_position(world_position);
        self.at_index_mut(i)
    }

    /// The cell owning a world position, or nothing for positions outside
    /// the covered rectangle.
    pub fn try_at_world_position(&self, world_position: Vec2I) -> (r: Option<&SpatialGridCell>)
        requires
            self.wf(),
        ensures
            self.spec_in_range(world_position) ==> (r matches Option::Some(c) && *c
                == self.cells@[self.spec_cell_index_of(world_position)] && c.spec_contains(
                world_position,
            )),
            !self.spec_in_range(world_position) ==> (r matches Option::None),
    {
        match self.try_index_from_world_position(world_position) {
            Ok(index) => Some(self.at_index(index)),
            Err(_) => None,
        }
    }

    /// Lowest column index the radius query visits: the column of
    /// `centre.x - radius`, saturated into the grid exactly as the
    /// machine's truncating division and index clamping produce it.
    pub open spec fn spec_radius_col_lo(self, centre: Vec2I, radius: int) -> int {
        let raw = div_t(centre.x - radius + self.spec_half_w(), self.cell_size as int);
        if raw < 0 {
            0
        } else {
            raw
        }
    }

    /// Highest column index the radius query visits.
    pub open spec fn spec_radius_col_hi(self, centre: Vec2I, radius: int) -> int {
        let raw = div_t(centre.x + radius + self.spec_half_w(), self.cell_size as int);
        let low = if raw < 0 {
            0
        } else {
            raw
        };
        if low > self.columns - 1 {
            self.columns - 1
        } else {
            low
        }
    }

    /// Lowest row index the radius query visits.
    pub open spec fn spec_radius_row_lo(self, centre: Vec2I, radius: int) -> int {
        let raw = div_t(centre.y - radius + self.spec_half_h(), self.cell_size as int);
        if raw < 0 {
            0
        } else {
            raw
        }
    }

    /// Highest row index the radius query visits.
    pub open spec fn spec_radius_row_hi(self, centre: Vec2I, radius: int) -> int {
        let raw = div_t(centre.y + radius + self.spec_half_h(), self.cell_size as int);
        let low = if raw < 0 {
            0
        } else {
            raw
        };
        if low > self.rows - 1 {
            self.rows - 1
        } else {
            low
        }
    }

    /// The indices the radius query returns: the row-major box of cells
    /// covering `[centre - radius, centre + radius]`, restricted to the
    /// grid. A superset of the true circle; rules re-check exact
    /// distances before acting.
    pub open spec fn spec_radius_indices_ok(self, centre: Vec2I, radius: int, out: Seq<usize>) -> bool {
        let col_lo = self.spec_radius_col_lo(centre, radius);
        let col_hi = self.spec_radius_col_hi(centre, radius);
        let row_lo = self.spec_radius_row_lo(centre, radius);
        let row_hi = self.spec_radius_row_hi(centre, radius);
        let nc = col_hi - col_lo + 1;
        let nr = row_hi - row_lo + 1;
        &&& out.len() == if nc > 0 && nr > 0 {
            nr * nc
        } else {
            0
        }
        &&& forall|k: int|
            0 <= k < out.len() ==> (#[trigger] out[k]) as int == (row_lo + k / nc) * self.columns
                + (col_lo + k % nc)
        &&& forall|row: int, col: int|
            row_lo <= row <= row_hi && col_lo <= col <= col_hi ==> out.contains(
                #[trigger] (((row * self.columns) + col) as usize),
            )
        &&& forall|k: int| 0 <= k < out.len() ==> (#[trigger] out[k]) < self.cells@.len()
    }

    /// The very sequence the radius query returns, constructively: the
    /// row-major enumeration of the clamped index box.
    pub open spec fn spec_radius_indices(self, centre: Vec2I, radius: int) -> Seq<usize> {
        let col_lo = self.spec_radius_col_lo(centre, radius);
        let col_hi = self.spec_radius_col_hi(centre, radius);
        let row_lo = self.spec_radius_row_lo(centre, radius);
        let row_hi = self.spec_radius_row_hi(centre, radius);
        let nc = col_hi - col_lo + 1;
        let nr = row_hi - row_lo + 1;
        if nc > 0 && nr > 0 {
            Seq::new(
                (nr * nc) as nat,
                |k: int| ((row_lo + k / nc) * self.columns + (col_lo + k % nc)) as usize,
            )
        } else {
            Seq::empty()
        }
    }

    /// Row-major indices of every cell whose index box intersects the
    /// square window of side `2 * radius` around `centre`, skipping
    /// indices outside the grid.
    pub fn iter_radius(&self, centre: Vec2I, radius: i64) -> (out: Vec<usize>)
        requires
            self.wf(),
            0 <= radius <= 2 * POS_LIMIT,
            int_abs(centre.x as int) <= 2 * POS_LIMIT,
            int_abs(centre.y as int) <= 2 * POS_LIMIT,
        ensures
            self.spec_radius_indices_ok(centre, radius as int, out@),
            out@ == self.spec_radius_indices(centre, radius as int),
    {
        let (half_w, half_h) = self.half_extents();
        let cs = self.cell_size;
        let cols_i = self.columns;
        let rows_i = self.rows;
        proof {
            assert(self.columns <= GRID_CELLS_LIMIT && self.rows <= GRID_CELLS_LIMIT)
                by (nonlinear_arith)
                requires
                    1 <= self.rows && 1 <= self.columns && self.rows * self.columns
                        <= GRID_CELLS_LIMIT,
            ;
        }
        let col_lo_raw = div_q(centre.x - radius + half_w, cs);
        let col_hi_raw = div_q(centre.x + radius + half_w, cs);
        let row_lo_raw = div_q(centre.y - radius + half_h, cs);
        let row_hi_raw = div_q(centre.y + radius + half_h, cs);
        let col_lo = if col_lo_raw < 0 {
            0
        } else {
            col_lo_raw
        };
        let col_hi_unclamped = if col_hi_raw < 0 {
            0
        } else {
            col_hi_raw
        };
        let col_hi = if col_hi_unclamped > (cols_i as i64) - 1 {
            (cols_i as i64) - 1
        } else {
            col_hi_unclamped
        };
        let row_lo = if row_lo_raw < 0 {
            0
        } else {
            row_lo_raw
        };
        let row_hi_unclamped = if row_hi_raw < 0 {
            0
        } else {
            row_hi_raw
        };
        let row_hi = if row_hi_unclamped > (rows_i as i64) - 1 {
            (rows_i as i64) - 1
        } else {
            row_hi_unclamped
        };
        let ghost g_col_lo = self.spec_radius_col_lo(centre, radius as int);
        let ghost g_col_hi = self.spec_radius_col_hi(centre, radius as int);
        let ghost g_row_lo = self.spec_radius_row_lo(centre, radius as int);
        let ghost g_row_hi = self.spec_radius_row_hi(centre, radius as int);
        let ghost nc = g_col_hi - g_col_lo + 1;
        let ghost nr = g_row_hi - g_row_lo + 1;
        proof {
            assert(col_lo == g_col_lo && col_hi == g_col_hi && row_lo == g_row_lo && row_hi
                == g_row_hi);
        }
        let mut out: Vec<usize> = Vec::new();
        if col_lo > col_hi || row_lo > row_hi {
            proof {
                assert(out@.len() == 0);
                assert(out@ =~= self.spec_radius_indices(centre, radius as int));
            }
            return out;
        }
        let mut row: i64 = row_lo;
        proof {
            assert((row_lo - g_row_lo) * nc == 0) by (nonlinear_arith)
                requires
                    row_lo == g_row_lo,
            ;
        }
        while row <= row_hi
            invariant
                self.wf(),
                cs == self.cell_size,
                cols_i == self.columns && rows_i == self.rows,
                col_lo == g_col_lo && col_hi == g_col_hi && row_lo == g_row_lo,
                row_hi == g_row_hi,
                nc == g_col_hi - g_col_lo + 1 && nr == g_row_hi - g_row_lo + 1,
                cols_i <= GRID_CELLS_LIMIT && rows_i <= GRID_CELLS_LIMIT,
                0 <= col_lo <= col_hi < cols_i,
                0 <= row_lo <= row,
                row_lo <= row_hi < rows_i,
                row <= row_hi + 1,
                out@.len() == (row - row_lo) * nc,
                forall|k: int|
                    0 <= k < out@.len() ==> (#[trigger] out@[k]) as int == (g_row_lo + k / nc)
                        * self.columns + (g_col_lo + k % nc),
            decreases row_hi + 1 - row,
        {
            let mut col: i64 = col_lo;
            while col <= col_hi
                invariant
                    self.wf(),
                    cols_i == self.columns && rows_i == self.rows,
                    col_lo == g_col_lo && col_hi == g_col_hi && row_lo == g_row_lo,
                    row_hi == g_row_hi,
                    nc == g_col_hi - g_col_lo + 1 && nr == g_row_hi - g_row_lo + 1,
                    cols_i <= GRID_CELLS_LIMIT && rows_i <= GRID_CELLS_LIMIT,
                    0 <= col_lo <= col,
                    col_lo <= col_hi < cols_i,
                    col <= col_hi + 1,
                    0 <= row_lo <= row <= row_hi < rows_i,
                    out@.len() == (row - row_lo) * nc + (col - col_lo),
                    forall|k: int|
                        0 <= k < out@.len() ==> (#[trigger] out@[k]) as int == (g_row_lo + k / nc)
                            * self.columns + (g_col_lo + k % nc),
                decreases col_hi + 1 - col,
            {
                proof {
                    assert(0 <= row * cols_i + col < rows_i * cols_i) by (nonlinear_arith)
                        requires
                            0 <= col < cols_i && 0 <= row < rows_i,
                    ;
                }
                let ghost old_out = out@;
                out.push((row as usize) * cols_i + (col as usize));
                proof {
                    let k = out@.len() - 1;
                    assert(k == (row - g_row_lo) * nc + (col - g_col_lo));
                    vstd::arithmetic::div_mod::lemma_fundamental_div_mod_converse(
                        k,
                        nc,
                        row - g_row_lo,
                        col - g_col_lo,
                    );
                    assert(out@[k as int] as int == (g_row_lo + k / nc) * self.columns + (g_col_lo
                        + k % nc));
                }
                col = col + 1;
            }
            proof {
                assert((row + 1 - g_row_lo) * nc == (row - g_row_lo) * nc + nc)
                    by (nonlinear_arith);
            }
            row = row + 1;
        }
        proof {
            assert(out@.len() == nr * nc);
            assert forall|r2: int, c2: int|
                g_row_lo <= r2 <= g_row_hi && g_col_lo <= c2 <= g_col_hi implies out@.contains(
                #[trigger] (((r2 * self.columns) + c2) as usize),
            ) by {
                let k = (r2 - g_row_lo) * nc + (c2 - g_col_lo);
                assert(0 <= (r2 - g_row_lo) * nc <= k < nr * nc) by (nonlinear_arith)
                    requires
                        0 <= r2 - g_row_lo < nr && 0 <= c2 - g_col_lo < nc && k == (r2 - g_row_lo)
                            * nc + (c2 - g_col_lo),
                ;
                vstd::arithmetic::div_mod::lemma_fundamental_div_mod_converse(
                    k,
                    nc,
                    r2 - g_row_lo,
                    c2 - g_col_lo,
                );
                assert(out@[k] as int == r2 * self.columns + c2);
                assert(0 <= r2 * self.columns + c2 < self.rows * self.columns)
                    by (nonlinear_arith)
                    requires
                        0 <= c2 < self.columns && 0 <= r2 < self.rows,
                ;
                assert(out@[k] == ((r2 * self.columns) + c2) as usize);
            }
            assert(out@ =~= self.spec_radius_indices(centre, radius as int));
            assert forall|k: int| 0 <= k < out@.len() implies (#[trigger] out@[k])
                < self.cells@.len() by {
                let r2 = g_row_lo + k / nc;
                let c2 = g_col_lo + k % nc;
                vstd::arithmetic::div_mod::lemma_fundamental_div_mod(k, nc);
                vstd::arithmetic::div_mod::lemma_mod_bound(k, nc);
                assert(0 <= k / nc < nr) by (nonlinear_arith)
                    requires
                        0 <= k < nr * nc && 0 < nc && k == nc * (k / nc) + k % nc && 0 <= k % nc
                            < nc,
                ;
                assert(0 <= r2 * self.columns + c2 < self.rows * self.columns)
                    by (nonlinear_arith)
                    requires
                        0 <= c2 < self.columns && 0 <= r2 < self.rows,
                ;
            }
        }
        out
    }

    /// Places one agent snapshot into the cell owning its position.
    pub fn insert(&mut self, boid: SpatialGridBoid)
        requires
            old(self).wf(),
            old(self).spec_in_range(boid.position),
        ensures
            final(self).wf(),
            final(self).rows == old(self).rows && final(self).columns == old(self).columns
                && final(self).cell_size == old(self).cell_size,
            final(self).cells@.len() == old(self).cells@.len(),
            ({
                let idx = old(self).spec_cell_index_of(boid.position);
                let newc = final(self).cells@;
                let oldc = old(self).cells@;
                &&& newc[idx].boids@ == oldc[idx].boids@.push(boid)
                &&& forall|j: int|
                    0 <= j < oldc.len() && j != idx ==> #[trigger] newc[j] == oldc[j]
                &&& newc[idx].row == oldc[idx].row && newc[idx].column == oldc[idx].column
                    && newc[idx].min == oldc[idx].min && newc[idx].size == oldc[idx].size
            }),
    {
        let ghost orig = *self;
        let i = self.index_from_world_position(boid.position);
        let cell = &mut self.cells[i];
        cell.boids.push(boid);
        proof {
            assert forall|j: int|
                0 <= j < self.cells@.len() implies #[trigger] self.spec_cell_wf(j) by {
                assert(orig.spec_cell_wf(j));
            }
        }
    }
}

/// Indexing a position and looking at that cell's bounding rectangle gets
/// back a rectangle containing the position: the grid's index round-trip.
pub proof fn lemma_grid_index_round_trip(g: SpatialGrid, p: Vec2I)
    requires
        g.wf(),
        g.spec_in_range(p),
    ensures
        0 <= g.spec_col_of(p) < g.columns,
        0 <= g.spec_row_of(p) < g.rows,
        0 <= g.spec_cell_index_of(p) < g.cells@.len(),
        g.cells@[g.spec_cell_index_of(p)].spec_contains(p),
        g.cells@[g.spec_cell_index_of(p)].row == g.spec_row_of(p),
        g.cells@[g.spec_cell_index_of(p)].column == g.spec_col_of(p),
{
    let cs = g.cell_size as int;
    let cols = g.columns as int;
    let rows = g.rows as int;
    let nx = p.x + g.spec_half_w();
    let ny = p.y + g.spec_half_h();
    let col = g.spec_col_of(p);
    let row = g.spec_row_of(p);
    vstd::arithmetic::div_mod::lemma_div_pos_is_pos(nx, cs);
    vstd::arithmetic::div_mod::lemma_div_pos_is_pos(ny, cs);
    assert(cols * cs == cs * cols && rows * cs == cs * rows) by (nonlinear_arith);
    vstd::arithmetic::div_mod::lemma_multiply_divide_lt(nx, cs, cols);
    vstd::arithmetic::div_mod::lemma_multiply_divide_lt(ny, cs, rows);
    assert(0 <= col < cols && 0 <= row < rows);
    let idx = g.spec_cell_index_of(p);
    assert(0 <= row * cols + col < rows * cols) by (nonlinear_arith)
        requires
            0 <= col < cols && 0 <= row < rows,
    ;
    vstd::arithmetic::div_mod::lemma_fundamental_div_mod_converse(idx, cols, row, col);
    assert(g.spec_cell_wf(idx));
    let c = g.cells@[idx];
    vstd::arithmetic::div_mod::lemma_fundamental_div_mod(nx, cs);
    vstd::arithmetic::div_mod::lemma_mod_bound(nx, cs);
    vstd::arithmetic::div_mod::lemma_fundamental_div_mod(ny, cs);
    vstd::arithmetic::div_mod::lemma_mod_bound(ny, cs);
    assert(c.min.x == col * cs - g.spec_half_w() && c.min.y == row * cs - g.spec_half_h());
    assert(cs * col <= nx < cs * col + cs) by {
        assert(nx == cs * (nx / cs) + nx % cs);
    }
    assert(cs * row <= ny < cs * row + cs) by {
        assert(ny == cs * (ny / cs) + ny % cs);
    }
    assert(cs * col == col * cs && cs * row == row * cs) by (nonlinear_arith);
}

/// Total number of snapshots held by a prefix of a cell list.
pub open spec fn spec_sum_boids(cells: Seq<SpatialGridCell>) -> int
    decreases cells.len(),
{
    if cells.len() == 0 {
        0
    } else {
        spec_sum_boids(cells.drop_last()) + cells.last().boids@.len()
    }
}

/// Total number of snapshots at a sequence of cell indices.
pub open spec fn spec_sum_boids_at(cells: Seq<SpatialGridCell>, idxs: Seq<usize>) -> int
    decreases idxs.len(),
{
    if idxs.len() == 0 {
        0
    } else {
        spec_sum_boids_at(cells, idxs.drop_last()) + cells[idxs.last() as int].boids@.len()
    }
}

pub proof fn lemma_sum_boids_nonneg(cells: Seq<SpatialGridCell>)
    ensures
        spec_sum_boids(cells) >= 0,
    decreases cells.len(),
{
    if cells.len() > 0 {
        lemma_sum_boids_nonneg(cells.drop_last());
    }
}

/// Growing the prefix can only grow the snapshot total.
pub proof fn lemma_sum_boids_prefix(cells: Seq<SpatialGridCell>, m: int)
    requires
        0 <= m <= cells.len(),
    ensures
        spec_sum_boids(cells.take(m)) <= spec_sum_boids(cells),
    decreases cells.len() - m,
{
    if m == cells.len() {
        assert(cells.take(m) =~= cells);
    } else {
        assert(cells.take(m + 1).drop_last() =~= cells.take(m));
        lemma_sum_boids_prefix(cells, m + 1);
    }
}

/// The snapshots at strictly increasing cell indices are never more than
/// the whole grid holds.
pub proof fn lemma_increasing_sum_boids(cells: Seq<SpatialGridCell>, idxs: Seq<usize>, m: int)
    requires
        forall|k: int| 0 <= k < idxs.len() ==> (#[trigger] idxs[k]) < m,
        forall|k1: int, k2: int| 0 <= k1 < k2 < idxs.len() ==> idxs[k1] < idxs[k2],
        0 <= m <= cells.len(),
    ensures
        spec_sum_boids_at(cells, idxs) <= spec_sum_boids(cells.take(m)),
    decreases idxs.len(),
{
    if idxs.len() == 0 {
        lemma_sum_boids_nonneg(cells.take(m));
    } else {
        let last = idxs.last() as int;
        lemma_increasing_sum_boids(cells, idxs.drop_last(), last);
        lemma_sum_boids_prefix(cells.take(m), last + 1);
        assert(cells.take(m).take(last + 1) =~= cells.take(last + 1));
        assert(cells.take(last + 1).drop_last() =~= cells.take(last));
        assert(spec_sum_boids(cells.take(last + 1)) == spec_sum_boids(cells.take(last))
            + cells[last].boids@.len());
    }
}

/// The radius query's indices come in strictly increasing row-major
/// order (so no cell is visited twice).
pub proof fn lemma_radius_indices_increasing(g: SpatialGrid, centre: Vec2I, radius: int)
    requires
        g.wf(),
    ensures
        ({
            let idxs = g.spec_radius_indices(centre, radius);
            forall|k1: int, k2: int| 0 <= k1 < k2 < idxs.len() ==> idxs[k1] < idxs[k2]
        }),
{
    let idxs = g.spec_radius_indices(centre, radius);
    let col_lo = g.spec_radius_col_lo(centre, radius);
    let col_hi = g.spec_radius_col_hi(centre, radius);
    let row_lo = g.spec_radius_row_lo(centre, radius);
    let row_hi = g.spec_radius_row_hi(centre, radius);
    let nc = col_hi - col_lo + 1;
    let nr = row_hi - row_lo + 1;
    if nc > 0 && nr > 0 {
        assert forall|k1: int, k2: int| 0 <= k1 < k2 < idxs.len() implies idxs[k1] < idxs[k2] by {
            vstd::arithmetic::div_mod::lemma_fundamental_div_mod(k1, nc);
            vstd::arithmetic::div_mod::lemma_mod_bound(k1, nc);
            vstd::arithmetic::div_mod::lemma_fundamental_div_mod(k2, nc);
            vstd::arithmetic::div_mod::lemma_mod_bound(k2, nc);
            vstd::arithmetic::div_mod::lemma_div_is_ordered(k1, k2, nc);
            let q1 = k1 / nc;
            let q2 = k2 / nc;
            let r1 = k1 % nc;
            let r2 = k2 % nc;
            assert(0 <= nc <= g.columns);
            assert(q1 < q2 || (q1 == q2 && r1 < r2)) by {
                if q1 == q2 {
                    assert(r1 < r2);
                }
            }
            assert(0 <= q1 <= q2 < nr) by (nonlinear_arith)
                requires
                    0 <= k2 < nr * nc && 0 < nc && k2 == nc * q2 + r2 && 0 <= r2 < nc && q1 <= q2
                        && 0 <= q1,
            ;
            let i1 = (row_lo + q1) * g.columns + (col_lo + r1);
            let i2 = (row_lo + q2) * g.columns + (col_lo + r2);
            assert(i1 < i2) by (nonlinear_arith)
                requires
                    i1 == (row_lo + q1) * g.columns + (col_lo + r1) && i2 == (row_lo + q2)
                        * g.columns + (col_lo + r2) && (q1 < q2 || (q1 == q2 && r1 < r2)) && 0
                        <= r1 < nc && 0 <= r2 < nc && nc <= g.columns && q1 <= q2,
            ;
            assert(0 <= i1 < i2 < g.rows * g.columns) by (nonlinear_arith)
                requires
                    i1 == (row_lo + q1) * g.columns + (col_lo + r1) && i2 == (row_lo + q2)
                        * g.columns + (col_lo + r2) && 0 <= col_lo + r1 < g.columns && 0 <= col_lo
                        + r2 < g.columns && 0 <= row_lo + q1 < g.rows && 0 <= row_lo + q2 < g.rows
                        && i1 < i2,
            ;
            assert(idxs[k1] == i1 as usize && idxs[k2] == i2 as usize);
        }
    }
}

/// Radius query completeness: every position inside the grid whose true
/// distance to the query centre is at most the radius lies in a cell
/// whose index every result of the radius query contains. False
/// positives from the rectangular superset are allowed and are filtered
/// by the rules, which re-check exact distances.
pub proof fn lemma_radius_query_complete(
    g: SpatialGrid,
    centre: Vec2I,
    radius: int,
    p: Vec2I,
    indices: Seq<usize>,
)
    requires
        g.wf(),
        g.spec_in_range(p),
        0 <= radius,
        (p.x - centre.x) * (p.x - centre.x) + (p.y - centre.y) * (p.y - centre.y) <= radius
            * radius,
        g.spec_radius_indices_ok(centre, radius, indices),
    ensures
        indices.contains(g.spec_cell_index_of(p) as usize),
{
    let cs = g.cell_size as int;
    let cols = g.columns as int;
    let rows = g.rows as int;
    let col = g.spec_col_of(p);
    let row = g.spec_row_of(p);
    lemma_grid_index_round_trip(g, p);
    assert(int_abs(p.x - centre.x) <= radius && int_abs(p.y - centre.y) <= radius)
        by (nonlinear_arith)
        requires
            0 <= radius && (p.x - centre.x) * (p.x - centre.x) + (p.y - centre.y) * (p.y
                - centre.y) <= radius * radius,
    ;
    let lo_nx = centre.x - radius + g.spec_half_w();
    let hi_nx = centre.x + radius + g.spec_half_w();
    let lo_ny = centre.y - radius + g.spec_half_h();
    let hi_ny = centre.y + radius + g.spec_half_h();
    vstd::arithmetic::div_mod::lemma_div_is_ordered(lo_nx, p.x + g.spec_half_w(), cs);
    vstd::arithmetic::div_mod::lemma_div_is_ordered(p.x + g.spec_half_w(), hi_nx, cs);
    vstd::arithmetic::div_mod::lemma_div_is_ordered(lo_ny, p.y + g.spec_half_h(), cs);
    vstd::arithmetic::div_mod::lemma_div_is_ordered(p.y + g.spec_half_h(), hi_ny, cs);
    crate::math::lemma_div_t_props(lo_nx, cs);
    crate::math::lemma_div_t_props(hi_nx, cs);
    crate::math::lemma_div_t_props(lo_ny, cs);
    crate::math::lemma_div_t_props(hi_ny, cs);
    assert(g.spec_radius_col_lo(centre, radius) <= col <= g.spec_radius_col_hi(centre, radius));
    assert(g.spec_radius_row_lo(centre, radius) <= row <= g.spec_radius_row_hi(centre, radius));
    assert(indices.contains(((row * g.columns) + col) as usize));
    assert(g.spec_cell_index_of(p) == row * cols + col);
}

} // verus!
