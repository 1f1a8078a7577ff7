//! Memory of the cells the explorer has passed near.
use vstd::prelude::*;
use crate::robots::geometry::{Vec2, UNIT};
use crate::robots::grid::{grid_shape, grid_view, probe, probe_index, set_cell};

verus! {

/// Cells within this many cells, each way, of the explorer's cell are seen.
pub const SEEN_RADIUS: i128 = 2;

/// A grid of seen flags over a `width` by `height` world, with cells of its
/// own size, mapped to the world as the obstacle grid is.
pub struct ExploredZones {
    pub width: i64,
    pub height: i64,
    pub cell_size: i64,
    pub grid: Vec<Vec<bool>>,
}

/// `z` with every cell within `SEEN_RADIUS` of `(col, row)` marked seen.
pub open spec fn marked(z: Seq<Seq<bool>>, col: int, row: int) -> Seq<Seq<bool>> {
    Seq::new(
        z.len(),
        |r: int|
            Seq::new(
                z[r].len(),
                |c: int|
                    z[r][c] || (row - SEEN_RADIUS <= r <= row + SEEN_RADIUS && col - SEEN_RADIUS <= c
                        <= col + SEEN_RADIUS),
            ),
    )
}

impl ExploredZones {
    pub open spec fn cells(&self) -> Seq<Seq<bool>> {
        grid_view(self.grid)
    }

    pub open spec fn rows(&self) -> int {
        self.grid@.len() as int
    }

    pub open spec fn cols(&self) -> int {
        if self.grid@.len() > 0 { self.grid@[0]@.len() as int } else { 0 }
    }

    pub open spec fn wf(&self) -> bool {
        &&& 0 < self.cell_size
        &&& grid_shape(self.cells(), self.rows(), self.cols())
    }

    pub open spec fn col_of(&self, p: Vec2) -> int {
        probe_index(p.x as int, self.width as int, self.cell_size as int, 0)
    }

    pub open spec fn row_of(&self, p: Vec2) -> int {
        probe_index(p.y as int, self.height as int, self.cell_size as int, 0)
    }

    /// The cell of `p` lies in the grid and has been seen.
    pub open spec fn seen_at(&self, p: Vec2) -> bool {
        let c = self.col_of(p);
        let r = self.row_of(p);
        0 <= r < self.rows() && 0 <= c < self.cols() && self.cells()[r][c]
    }

    /// Marks seen the five by five block of cells centred on the cell of
    /// `pos`; cells of the block off the grid are skipped.
    pub fn mark_seen(&mut self, pos: Vec2)
        requires
            old(self).wf(),
        ensures
            final(self).wf(),
            final(self).width == old(self).width,
            final(self).height == old(self).height,
            final(self).cell_size == old(self).cell_size,
            final(self).rows() == old(self).rows(),
            final(self).cols() == old(self).cols(),
            final(self).cells() == marked(old(self).cells(), old(self).col_of(pos), old(self).row_of(pos)),
    {
        let rows = self.grid.len();
        let cols = if rows > 0 { self.grid[0].len() } else { 0 };
        let gx = probe(pos.x, self.width, self.cell_size, 0);
        let gy = probe(pos.y, self.height, self.cell_size, 0);
        let ghost before = self.cells();
        let ghost target = marked(before, gx as int, gy as int);
        let mut dy: i128 = -SEEN_RADIUS;
        while dy <= SEEN_RADIUS
            invariant
                self.wf(),
                self.width == old(self).width,
                self.height == old(self).height,
                self.cell_size == old(self).cell_size,
                before == old(self).cells(),
                rows == self.rows(),
                cols == self.cols(),
                rows == before.len(),
                gx == old(self).col_of(pos),
                gy == old(self).row_of(pos),
                -0x40_0000_0000_0000_0000 <= gx <= 0x40_0000_0000_0000_0000,
                -0x40_0000_0000_0000_0000 <= gy <= 0x40_0000_0000_0000_0000,
                -SEEN_RADIUS <= dy <= SEEN_RADIUS + 1,
                forall|r: int, c: int|
                    0 <= r < rows && 0 <= c < cols ==> #[trigger] self.cells()[r][c] == (before[r][c]
                        || (gy - SEEN_RADIUS <= r < gy + dy && gx - SEEN_RADIUS <= c <= gx
                        + SEEN_RADIUS)),
            decreases SEEN_RADIUS + 1 - dy,
        {
            let mut dx: i128 = -SEEN_RADIUS;
            while dx <= SEEN_RADIUS
                invariant
                    self.wf(),
                    self.width == old(self).width,
                    self.height == old(self).height,
                    self.cell_size == old(self).cell_size,
                    before == old(self).cells(),
                    rows == self.rows(),
                    cols == self.cols(),
                    rows == before.len(),
                    gx == old(self).col_of(pos),
                    gy == old(self).row_of(pos),
                    -0x40_0000_0000_0000_0000 <= gx <= 0x40_0000_0000_0000_0000,
                    -0x40_0000_0000_0000_0000 <= gy <= 0x40_0000_0000_0000_0000,
                    -SEEN_RADIUS <= dy <= SEEN_RADIUS,
                    -SEEN_RADIUS <= dx <= SEEN_RADIUS + 1,
                    forall|r: int, c: int|
                        0 <= r < rows && 0 <= c < cols ==> #[trigger] self.cells()[r][c] == (
                        before[r][c] || (gy - SEEN_RADIUS <= r < gy + dy && gx - SEEN_RADIUS <= c
                            <= gx + SEEN_RADIUS) || (r == gy + dy && gx - SEEN_RADIUS <= c < gx
                            + dx)),
                decreases SEEN_RADIUS + 1 - dx,
            {
                let x = gx + dx;
                let y = gy + dy;
                if 0 <= x && x < cols as i128 && 0 <= y && y < rows as i128 {
                    assert(self.cells()[y as int].len() == cols);
                    set_cell(&mut self.grid, y as usize, x as usize, true);
                    assert(self.cells().len() == rows);
                    assert(self.cells()[0].len() == cols);
                    assert(self.rows() == rows);
                    assert(self.cols() == cols);
                }
                dx = dx + 1;
            }
            dy = dy + 1;
        }
        proof {
            assert forall|r: int| 0 <= r < rows implies #[trigger] self.cells()[r] =~= target[r] by {
                assert(before[r].len() == cols);
            }
            assert(self.cells() =~= target);
        }
    }

    /// Tells whether the cell of `pos` lies in the grid and has been seen.
    pub fn is_seen(&self, pos: Vec2) -> (r: bool)
        requires
            self.wf(),
        ensures
            r == self.seen_at(pos),
    {
        let rows = self.grid.len();
        let cols = if rows > 0 { self.grid[0].len() } else { 0 };
        let gx = probe(pos.x, self.width, self.cell_size, 0);
        let gy = probe(pos.y, self.height, self.cell_size, 0);
        if 0 <= gx && gx < cols as i128 && 0 <= gy && gy < rows as i128 {
            assert(self.cells()[gy as int].len() == cols);
            self.grid[gy as usize][gx as usize]
        } else {
            false
        }
    }
}

impl ExploredZones {
    /// An unseen grid over a `width` by `height` world, in cells of
    /// `cell_size`: `height / cell_size` rows of `width / cell_size` cells.
    pub fn new(width: i64, height: i64, cell_size: i64) -> (r: ExploredZones)
        requires
            0 < cell_size,
            0 <= width,
            0 <= height,
            width / cell_size <= usize::MAX,
            height / cell_size <= usize::MAX,
        ensures
            r.wf(),
            r.width == width,
            r.height == height,
            r.cell_size == cell_size,
            r.rows() == height / cell_size,
            r.cols() == (if height / cell_size > 0 { width / cell_size } else { 0 }),
            forall|row: int, col: int|
                0 <= row < r.rows() && 0 <= col < r.cols() ==> !#[trigger] r.cells()[row][col],
    {
        let rows = (height / cell_size) as usize;
        let cols = (width / cell_size) as usize;
        let mut grid: Vec<Vec<bool>> = Vec::new();
        let mut y: usize = 0;
        while y < rows
            invariant
                y <= rows,
                grid_shape(grid_view(grid), y as int, cols as int),
                forall|row: int, col: int| 0 <= row < y && 0 <= col < cols ==> !#[trigger] grid_view(grid)[row][col],
            decreases rows - y,
        {
            let mut line: Vec<bool> = Vec::new();
            let mut x: usize = 0;
            while x < cols
                invariant
                    x <= cols,
                    line@.len() == x,
                    forall|col: int| 0 <= col < x ==> !#[trigger] line@[col],
                decreases cols - x,
            {
                line.push(false);
                x = x + 1;
            }
            let ghost prev = grid_view(grid);
            grid.push(line);
            assert(grid_view(grid) =~= prev.push(line@));
            y = y + 1;
        }
        let r = ExploredZones { width, height, cell_size, grid };
        if rows > 0 {
            assert(r.cells()[0].len() == cols);
        }
        r
    }
}

impl Default for ExploredZones {
    /// An unseen grid of 60 rows of 80 cells of 10 world units, over an
    /// 800 by 600 world.
    fn default() -> (r: ExploredZones)
        ensures
            r.wf(),
            r.width == 800 * UNIT,
            r.height == 600 * UNIT,
            r.cell_size == 10 * UNIT,
            r.rows() == 60,
            r.cols() == 80,
            forall|row: int, col: int| 0 <= row < 60 && 0 <= col < 80 ==> !#[trigger] r.cells()[row][col],
    {
        let w: i64 = 800 * UNIT;
        let h: i64 = 600 * UNIT;
        let c: i64 = 10 * UNIT;
        assert(h / c == 60 && w / c == 80) by (nonlinear_arith)
            requires
                w == 800_000,
                h == 600_000,
                c == 10_000,
        ;
        ExploredZones::new(w, h, c)
    }
}

/// Marking the same position twice leaves the same seen cells as marking it
/// once.
pub proof fn lemma_mark_seen_idempotent(z: Seq<Seq<bool>>, col: int, row: int)
    ensures
        marked(marked(z, col, row), col, row) == marked(z, col, row),
{
    let once = marked(z, col, row);
    let twice = marked(once, col, row);
    assert forall|r: int| 0 <= r < z.len() implies #[trigger] twice[r] =~= once[r] by {}
    assert(twice =~= once);
}

} // verus!
