//! The obstacle grid, the mapping from world positions to its cells, and the
//! blocked-position query with its footprint.
use vstd::prelude::*;
use crate::robots::geometry::{Vec2, COORD_LIMIT};

verus! {

/// The world and its occupancy grid. `obstacles[row][col]` is true where the
/// cell is impassable; the grid is centred on the world origin.
pub struct GameMap {
    /// Width and height of the world, in position units.
    pub size: Vec2,
    pub cell_size: i64,
    pub obstacles: Vec<Vec<bool>>,
    pub seed: u32,
}

/// The resource spawn points, by kind.
pub struct MapResources {
    pub energy_positions: Vec<Vec2>,
    pub mineral_positions: Vec<Vec2>,
    pub scientific_sites: Vec<Vec2>,
}

impl MapResources {
    /// Every spawn point, energy first, then mineral, then scientific.
    pub open spec fn all_sites(&self) -> Seq<Vec2> {
        self.energy_positions@ + self.mineral_positions@ + self.scientific_sites@
    }
}

/// The cell index along one axis of the point `coord + k * 0.7 * cell`, in a
/// world of extent `dim`: `floor((coord + 0.7 * k * cell + dim / 2) / cell)`,
/// scaled by 20 to stay in integers.
pub open spec fn probe_index(coord: int, dim: int, cell: int, k: int) -> int {
    (20 * coord + 14 * k * cell + 10 * dim) / (20 * cell)
}

/// The grid, as rows of cells.
pub open spec fn grid_view(g: Vec<Vec<bool>>) -> Seq<Seq<bool>> {
    Seq::new(g@.len(), |r: int| g@[r]@)
}

/// A rectangular grid of `rows` rows and `cols` columns.
pub open spec fn grid_shape(g: Seq<Seq<bool>>, rows: int, cols: int) -> bool {
    &&& g.len() == rows
    &&& forall|r: int| 0 <= r < rows ==> (#[trigger] g[r]).len() == cols
}

impl GameMap {
    pub open spec fn rows(&self) -> int {
        self.obstacles@.len() as int
    }

    pub open spec fn cols(&self) -> int {
        if self.obstacles@.len() > 0 { self.obstacles@[0]@.len() as int } else { 0 }
    }

    pub open spec fn cells(&self) -> Seq<Seq<bool>> {
        grid_view(self.obstacles)
    }

    /// A positive cell size, a non-empty rectangular grid that lies within a
    /// world of bounded extent.
    pub open spec fn wf(&self) -> bool {
        &&& 0 < self.cell_size
        &&& 0 < self.size.x <= COORD_LIMIT
        &&& 0 < self.size.y <= COORD_LIMIT
        &&& self.rows() >= 1
        &&& self.cols() >= 1
        &&& grid_shape(self.cells(), self.rows(), self.cols())
        &&& self.cols() * self.cell_size <= self.size.x
        &&& self.rows() * self.cell_size <= self.size.y
    }

    pub open spec fn in_grid(&self, col: int, row: int) -> bool {
        0 <= row < self.rows() && 0 <= col < self.cols()
    }

    pub open spec fn occupied(&self, col: int, row: int) -> bool {
        self.in_grid(col, row) && self.cells()[row][col]
    }

    pub open spec fn col_of(&self, p: Vec2) -> int {
        probe_index(p.x as int, self.size.x as int, self.cell_size as int, 0)
    }

    pub open spec fn row_of(&self, p: Vec2) -> int {
        probe_index(p.y as int, self.size.y as int, self.cell_size as int, 0)
    }

    /// The cell that contains `p` lies in the grid.
    pub open spec fn position_in_grid(&self, p: Vec2) -> bool {
        self.in_grid(self.col_of(p), self.row_of(p))
    }

    /// The footprint sample `(kx, ky)` of `p` falls on an occupied cell.
    pub open spec fn probe_hits(&self, p: Vec2, kx: int, ky: int) -> bool {
        self.occupied(
            probe_index(p.x as int, self.size.x as int, self.cell_size as int, kx),
            probe_index(p.y as int, self.size.y as int, self.cell_size as int, ky),
        )
    }

    /// Some of the nine footprint samples of `p` (its own cell among them)
    /// falls on an occupied cell.
    pub open spec fn footprint_hits(&self, p: Vec2) -> bool {
        exists|kx: int, ky: int|
            -1 <= kx <= 1 && -1 <= ky <= 1 && #[trigger] self.probe_hits(p, kx, ky)
    }

    /// An agent cannot stand at `p`: its cell is off the grid, or its
    /// footprint touches an occupied cell.
    pub open spec fn is_blocked(&self, p: Vec2) -> bool {
        !self.position_in_grid(p) || self.footprint_hits(p)
    }

    /// The world position of the centre of a cell.
    pub open spec fn cell_center(&self, col: int, row: int) -> Vec2 {
        Vec2 {
            x: (((2 * col + 1) * self.cell_size - self.size.x) / 2) as i64,
            y: (((2 * row + 1) * self.cell_size - self.size.y) / 2) as i64,
        }
    }
}

/// A point that lies in the grid lies within half the world's extent of the
/// origin.
pub proof fn lemma_in_grid_bounded(map: &GameMap, p: Vec2)
    requires
        map.wf(),
        map.position_in_grid(p),
    ensures
        -map.size.x <= 2 * p.x < map.size.x,
        -map.size.y <= 2 * p.y < map.size.y,
        p.within(COORD_LIMIT / 2),
{
    lemma_index_range(p.x as int, map.size.x as int, map.cell_size as int, map.cols());
    lemma_index_range(p.y as int, map.size.y as int, map.cell_size as int, map.rows());
}

proof fn lemma_index_range(coord: int, dim: int, cell: int, n: int)
    requires
        0 < cell,
        n * cell <= dim,
        0 <= probe_index(coord, dim, cell, 0) < n,
    ensures
        -dim <= 2 * coord < dim,
{
    let num = 20 * coord + 10 * dim;
    let d = 20 * cell;
    let q = num / d;
    assert(14 * 0 * cell == 0) by (nonlinear_arith);
    assert(q == probe_index(coord, dim, cell, 0));
    assert(num == d * q + num % d) by (nonlinear_arith)
        requires
            d > 0,
            q == num / d,
    ;
    assert(0 <= num % d < d);
    assert(d * q >= 0) by (nonlinear_arith)
        requires
            d > 0,
            q >= 0,
    ;
    assert(d * q <= d * (n - 1)) by (nonlinear_arith)
        requires
            d > 0,
            q <= n - 1,
    ;
    assert(d * (n - 1) + d == 20 * (n * cell)) by (nonlinear_arith)
        requires
            d == 20 * cell,
    ;
}

/// The footprint samples of a cell's centre fall on that cell or on one of
/// its two neighbours, along each axis.
pub proof fn lemma_center_probe(col: int, cell: int, dim: int, k: int)
    requires
        0 < cell,
        -1 <= k <= 1,
    ensures
        col - 1 <= probe_index(((2 * col + 1) * cell - dim) / 2, dim, cell, k) <= col + 1,
        k == 0 ==> probe_index(((2 * col + 1) * cell - dim) / 2, dim, cell, k) == col,
{
    let big_x = (2 * col + 1) * cell - dim;
    let cx = big_x / 2;
    let e = big_x % 2;
    assert(2 * cx == big_x - e);
    let d = 20 * cell;
    let n = 20 * cx + 14 * k * cell + 10 * dim;
    let rem = (10 + 14 * k) * cell - 10 * e;
    assert(n == d * col + rem) by (nonlinear_arith)
        requires
            2 * cx == big_x - e,
            big_x == (2 * col + 1) * cell - dim,
            n == 20 * cx + 14 * k * cell + 10 * dim,
            rem == (10 + 14 * k) * cell - 10 * e,
            d == 20 * cell,
    ;
    assert(-d < rem < 2 * d) by (nonlinear_arith)
        requires
            rem == (10 + 14 * k) * cell - 10 * e,
            d == 20 * cell,
            -1 <= k <= 1,
            0 <= e <= 1,
            cell >= 1,
    ;
    let q = n / d;
    assert(n == d * q + n % d) by (nonlinear_arith)
        requires
            d > 0,
            q == n / d,
    ;
    assert(col - 1 <= q <= col + 1) by (nonlinear_arith)
        requires
            d > 0,
            n == d * q + n % d,
            0 <= n % d < d,
            n == d * col + rem,
            -d < rem < 2 * d,
    ;
    if k == 0 {
        assert(0 <= rem < d) by (nonlinear_arith)
            requires
                rem == 10 * cell - 10 * e,
                d == 20 * cell,
                0 <= e <= 1,
                cell >= 1,
        ;
        assert(q == col) by (nonlinear_arith)
            requires
                d > 0,
                n == d * q + n % d,
                0 <= n % d < d,
                n == d * col + rem,
                0 <= rem < d,
        ;
    }
}

pub proof fn lemma_center_in_range(col: int, n: int, cell: int, dim: int)
    requires
        0 < cell,
        0 <= col < n,
        n * cell <= dim <= COORD_LIMIT,
    ensures
        -COORD_LIMIT <= ((2 * col + 1) * cell - dim) / 2 <= COORD_LIMIT,
{
    assert((2 * col + 1) * cell <= 2 * (n * cell)) by (nonlinear_arith)
        requires
            0 <= col < n,
            cell > 0,
    ;
    assert((2 * col + 1) * cell >= 0) by (nonlinear_arith)
        requires
            0 <= col,
            cell > 0,
    ;
}

/// The centre of a cell of the grid lies in that cell.
pub proof fn lemma_cell_of_center(map: &GameMap, col: int, row: int)
    requires
        map.wf(),
        map.in_grid(col, row),
    ensures
        map.col_of(map.cell_center(col, row)) == col,
        map.row_of(map.cell_center(col, row)) == row,
        map.cell_center(col, row).within(COORD_LIMIT as int),
{
    let s = map.cell_size as int;
    lemma_center_in_range(col, map.cols(), s, map.size.x as int);
    lemma_center_in_range(row, map.rows(), s, map.size.y as int);
    lemma_center_probe(col, s, map.size.x as int, 0);
    lemma_center_probe(row, s, map.size.y as int, 0);
}

/// Computes `probe_index(coord, dim, cell, k)`.
pub(crate) fn probe(coord: i64, dim: i64, cell: i64, k: i64) -> (r: i128)
    requires
        0 < cell,
        -1 <= k <= 1,
    ensures
        r == probe_index(coord as int, dim as int, cell as int, k as int),
        -0x40_0000_0000_0000_0000 <= r <= 0x40_0000_0000_0000_0000,
{
    let kc: i128 = if k == 0 {
        0
    } else if k > 0 {
        cell as i128
    } else {
        -(cell as i128)
    };
    assert(kc == k * cell) by (nonlinear_arith)
        requires
            -1 <= k <= 1,
            kc == (if k == 0 { 0 } else if k > 0 { cell as int } else { -cell }),
    ;
    let num: i128 = 20 * (coord as i128) + 14 * kc + 10 * (dim as i128);
    let den: i128 = 20 * (cell as i128);
    assert(num == 20 * coord + 14 * k * cell + 10 * dim) by (nonlinear_arith)
        requires
            kc == k * cell,
            num == 20 * coord + 14 * kc + 10 * dim,
    ;
    if num >= 0 {
        assert(num / den <= num) by (nonlinear_arith)
            requires
                num >= 0,
                den >= 1,
        ;
        num / den
    } else {
        let m = -num - 1;
        let q = m / den;
        proof {
            let rr = m % den;
            assert(m == q * den + rr) by (nonlinear_arith)
                requires
                    den > 0,
                    q == m / den,
                    rr == m % den,
            ;
            assert(num == (-q - 1) * den + (den - rr - 1)) by (nonlinear_arith)
                requires
                    m == q * den + rr,
                    m == -num - 1,
            ;
            assert(q <= m) by (nonlinear_arith)
                requires
                    m >= 0,
                    den >= 1,
                    q == m / den,
            ;
            assert(q >= 0) by (nonlinear_arith)
                requires
                    m >= 0,
                    den >= 1,
                    q == m / den,
            ;
            vstd::arithmetic::div_mod::lemma_fundamental_div_mod_converse(
                num as int,
                den as int,
                -q - 1,
                den - rr - 1,
            );
        }
        -q - 1
    }
}

/// Sets one cell of a grid.
pub(crate) fn set_cell(g: &mut Vec<Vec<bool>>, row: usize, col: usize, v: bool)
    requires
        row < old(g)@.len(),
        col < old(g)@[row as int]@.len(),
    ensures
        grid_view(*final(g)) == grid_view(*old(g)).update(
            row as int,
            grid_view(*old(g))[row as int].update(col as int, v),
        ),
{
    let mut line = Vec::new();
    std::mem::swap(&mut line, &mut g[row]);
    line.set(col, v);
    std::mem::swap(&mut line, &mut g[row]);
    assert(grid_view(*g) =~= grid_view(*old(g)).update(
        row as int,
        grid_view(*old(g))[row as int].update(col as int, v),
    ));
}

/// The cell `(col, row)` lies within two cells of the cell of `p`, each way.
pub open spec fn near_cell(map: GameMap, p: Vec2, col: int, row: int) -> bool {
    &&& map.col_of(p) - 2 <= col <= map.col_of(p) + 2
    &&& map.row_of(p) - 2 <= row <= map.row_of(p) + 2
}

/// `after` is `before` with the same world and grid size, and the cells
/// for which `cleared` holds made free.
pub open spec fn cleared_where(before: GameMap, after: GameMap, cleared: spec_fn(int, int) -> bool) -> bool {
    &&& after.size == before.size
    &&& after.cell_size == before.cell_size
    &&& after.seed == before.seed
    &&& after.rows() == before.rows()
    &&& after.cols() == before.cols()
    &&& after.wf()
    &&& forall|row: int, col: int|
        before.in_grid(col, row) ==> #[trigger] after.cells()[row][col] == (before.cells()[row][col]
            && !cleared(col, row))
}

/// Frees the five by five block of cells centred on the cell of `pos`; the
/// cells of the block that lie off the grid are skipped.
fn clear_around(game_map: &mut GameMap, pos: Vec2)
    requires
        old(game_map).wf(),
    ensures
        cleared_where(*old(game_map), *final(game_map), |c: int, r: int| near_cell(*old(game_map), pos, c, r)),
{
    let rows = game_map.obstacles.len();
    let cols = game_map.obstacles[0].len();
    let gx = probe(pos.x, game_map.size.x, game_map.cell_size, 0);
    let gy = probe(pos.y, game_map.size.y, game_map.cell_size, 0);
    let ghost before = *game_map;
    let mut dy: i128 = -2;
    while dy <= 2
        invariant
            before.wf(),
            game_map.wf(),
            rows == before.rows(),
            cols == before.cols(),
            gx == before.col_of(pos),
            gy == before.row_of(pos),
            -0x40_0000_0000_0000_0000 <= gx <= 0x40_0000_0000_0000_0000,
            -0x40_0000_0000_0000_0000 <= gy <= 0x40_0000_0000_0000_0000,
            -2 <= dy <= 3,
            cleared_where(
                before,
                *game_map,
                |c: int, r: int| near_cell(before, pos, c, r) && r < gy + dy,
            ),
        decreases 3 - dy,
    {
        let mut dx: i128 = -2;
        while dx <= 2
            invariant
                before.wf(),
                game_map.wf(),
                rows == before.rows(),
                cols == before.cols(),
                gx == before.col_of(pos),
                gy == before.row_of(pos),
                -0x40_0000_0000_0000_0000 <= gx <= 0x40_0000_0000_0000_0000,
                -0x40_0000_0000_0000_0000 <= gy <= 0x40_0000_0000_0000_0000,
                -2 <= dy <= 2,
                -2 <= dx <= 3,
                cleared_where(
                    before,
                    *game_map,
                    |c: int, r: int|
                        near_cell(before, pos, c, r) && (r < gy + dy || (r == gy + dy && c < gx
                            + dx)),
                ),
            decreases 3 - dx,
        {
            let x = gx + dx;
            let y = gy + dy;
            if 0 <= x && x < cols as i128 && 0 <= y && y < rows as i128 {
                assert(game_map.cells()[y as int].len() == cols);
                set_cell(&mut game_map.obstacles, y as usize, x as usize, false);
                assert(game_map.cells() == grid_view(game_map.obstacles));
                assert(game_map.cells()[0].len() == cols);
            }
            dx = dx + 1;
        }
        dy = dy + 1;
    }
}

/// Frees the blocks around the points of `list`, which stand at `offset`
/// in `sites`, extending a clearing that covers the sites before `offset`.
fn clear_sites(
    game_map: &mut GameMap,
    list: &Vec<Vec2>,
    Ghost(before): Ghost<GameMap>,
    Ghost(sites): Ghost<Seq<Vec2>>,
    Ghost(offset): Ghost<int>,
)
    requires
        before.wf(),
        0 <= offset,
        offset + list@.len() <= sites.len(),
        forall|j: int| 0 <= j < list@.len() ==> sites[offset + j] == #[trigger] list@[j],
        cleared_where(
            before,
            *old(game_map),
            |c: int, r: int| exists|j: int| 0 <= j < offset && #[trigger] near_cell(before, sites[j], c, r),
        ),
    ensures
        cleared_where(
            before,
            *final(game_map),
            |c: int, r: int|
                exists|j: int|
                    0 <= j < offset + list@.len() && #[trigger] near_cell(before, sites[j], c, r),
        ),
{
    let mut i: usize = 0;
    while i < list.len()
        invariant
            before.wf(),
            0 <= offset,
            offset + list@.len() <= sites.len(),
            forall|j: int| 0 <= j < list@.len() ==> sites[offset + j] == #[trigger] list@[j],
            i <= list@.len(),
            cleared_where(
                before,
                *game_map,
                |c: int, r: int|
                    exists|j: int| 0 <= j < offset + i && #[trigger] near_cell(before, sites[j], c, r),
            ),
        decreases list@.len() - i,
    {
        let pos = list[i];
        assert(pos == sites[offset + i]);
        let ghost mid = *game_map;
        clear_around(game_map, pos);
        proof {
            assert forall|row: int, col: int| before.in_grid(col, row) implies #[trigger] game_map.cells()[row][col] == (
            before.cells()[row][col] && !(exists|j: int|
                0 <= j < offset + i + 1 && #[trigger] near_cell(before, sites[j], col, row))) by {
                assert(near_cell(mid, pos, col, row) == near_cell(before, sites[offset + i], col, row));
                if near_cell(before, sites[offset + i], col, row) {
                    assert(0 <= offset + i < offset + i + 1);
                }
            }
        }
        i = i + 1;
    }
}

/// Frees the cells within two cells, each way, of the cell of every
/// resource spawn point, so that no resource starts walled in.
pub fn clear_obstacles_around_resources(game_map: &mut GameMap, map_resources: &MapResources)
    requires
        old(game_map).wf(),
    ensures
        cleared_where(
            *old(game_map),
            *final(game_map),
            |c: int, r: int|
                exists|i: int|
                    0 <= i < map_resources.all_sites().len() && #[trigger] near_cell(
                        *old(game_map),
                        map_resources.all_sites()[i],
                        c,
                        r,
                    ),
        ),
        forall|i: int|
            0 <= i < map_resources.all_sites().len() && final(game_map).position_in_grid(
                #[trigger] map_resources.all_sites()[i],
            ) ==> !final(game_map).is_blocked(map_resources.all_sites()[i]),
{
    let ghost before = *game_map;
    let ghost sites = map_resources.all_sites();
    let ghost ne = map_resources.energy_positions@.len() as int;
    let ghost nm = map_resources.mineral_positions@.len() as int;
    assert(cleared_where(
        before,
        *game_map,
        |c: int, r: int| exists|j: int| 0 <= j < 0 && #[trigger] near_cell(before, sites[j], c, r),
    ));
    clear_sites(game_map, &map_resources.energy_positions, Ghost(before), Ghost(sites), Ghost(0));
    clear_sites(game_map, &map_resources.mineral_positions, Ghost(before), Ghost(sites), Ghost(ne));
    clear_sites(game_map, &map_resources.scientific_sites, Ghost(before), Ghost(sites), Ghost(ne + nm));
    proof {
        assert forall|i: int|
            0 <= i < sites.len() && game_map.position_in_grid(#[trigger] sites[i]) implies !game_map.is_blocked(
            sites[i],
        ) by {
            assert forall|row: int, col: int| near_cell(*game_map, sites[i], col, row) && game_map.in_grid(col, row)
                implies !#[trigger] game_map.cells()[row][col] by {
                assert(near_cell(before, sites[i], col, row));
            }
            lemma_spawn_point_free(*game_map, sites[i]);
        }
    }
}

/// The footprint samples of a point fall within one cell, each way, of the
/// point's own cell.
pub proof fn lemma_probe_near(coord: int, dim: int, cell: int, k: int)
    requires
        0 < cell,
        -1 <= k <= 1,
    ensures
        probe_index(coord, dim, cell, 0) - 1 <= probe_index(coord, dim, cell, k) <= probe_index(
            coord,
            dim,
            cell,
            0,
        ) + 1,
{
    let d = 20 * cell;
    let n0 = 20 * coord + 14 * 0 * cell + 10 * dim;
    let nk = 20 * coord + 14 * k * cell + 10 * dim;
    let q0 = n0 / d;
    let qk = nk / d;
    vstd::arithmetic::div_mod::lemma_fundamental_div_mod(n0, d);
    vstd::arithmetic::div_mod::lemma_fundamental_div_mod(nk, d);
    vstd::arithmetic::div_mod::lemma_mod_bound(n0, d);
    vstd::arithmetic::div_mod::lemma_mod_bound(nk, d);
    assert(nk - n0 == 14 * k * cell) by (nonlinear_arith)
        requires
            n0 == 20 * coord + 14 * 0 * cell + 10 * dim,
            nk == 20 * coord + 14 * k * cell + 10 * dim,
    ;
    assert(-14 * cell <= 14 * k * cell <= 14 * cell) by (nonlinear_arith)
        requires
            -1 <= k <= 1,
            cell > 0,
    ;
    assert(q0 - 1 <= qk <= q0 + 1) by (nonlinear_arith)
        requires
            d == 20 * cell,
            cell > 0,
            n0 == d * q0 + n0 % d,
            nk == d * qk + nk % d,
            0 <= n0 % d < d,
            0 <= nk % d < d,
            -14 * cell <= nk - n0 <= 14 * cell,
    ;
}

/// An agent standing at `p`, whose cell lies in the grid and has no occupied
/// cell within two cells of it, each way, is not blocked.
pub proof fn lemma_spawn_point_free(map: GameMap, p: Vec2)
    requires
        map.wf(),
        map.position_in_grid(p),
        forall|row: int, col: int|
            near_cell(map, p, col, row) && map.in_grid(col, row) ==> !#[trigger] map.cells()[row][col],
    ensures
        !map.is_blocked(p),
{
    assert forall|kx: int, ky: int| -1 <= kx <= 1 && -1 <= ky <= 1 implies !#[trigger] map.probe_hits(p, kx, ky) by {
        lemma_probe_near(p.x as int, map.size.x as int, map.cell_size as int, kx);
        lemma_probe_near(p.y as int, map.size.y as int, map.cell_size as int, ky);
        let c = probe_index(p.x as int, map.size.x as int, map.cell_size as int, kx);
        let r = probe_index(p.y as int, map.size.y as int, map.cell_size as int, ky);
        assert(near_cell(map, p, c, r));
    }
}

/// Tells whether an agent cannot stand at `pos`: its cell is off the grid or
/// occupied, or a point 0.7 cells away along either axis or both falls on an
/// occupied cell.
pub fn is_position_blocked(pos: Vec2, game_map: &GameMap) -> (r: bool)
    requires
        game_map.wf(),
    ensures
        r == game_map.is_blocked(pos),
        !game_map.position_in_grid(pos) ==> r,
{
    let rows = game_map.obstacles.len();
    let cols = game_map.obstacles[0].len();
    let gx = probe(pos.x, game_map.size.x, game_map.cell_size, 0);
    let gy = probe(pos.y, game_map.size.y, game_map.cell_size, 0);
    if gx < 0 || gx >= cols as i128 || gy < 0 || gy >= rows as i128 {
        return true;
    }
    let mut ky: i64 = -1;
    while ky <= 1
        invariant
            game_map.wf(),
            rows == game_map.rows(),
            cols == game_map.cols(),
            -1 <= ky <= 2,
            forall|a: int, b: int|
                -1 <= a <= 1 && -1 <= b < ky ==> !#[trigger] game_map.probe_hits(pos, a, b),
        decreases 2 - ky,
    {
        let cy = probe(pos.y, game_map.size.y, game_map.cell_size, ky);
        let mut kx: i64 = -1;
        while kx <= 1
            invariant
                game_map.wf(),
                rows == game_map.rows(),
                cols == game_map.cols(),
                -1 <= ky <= 1,
                -1 <= kx <= 2,
                cy == probe_index(
                    pos.y as int,
                    game_map.size.y as int,
                    game_map.cell_size as int,
                    ky as int,
                ),
                forall|a: int, b: int|
                    -1 <= a <= 1 && -1 <= b < ky ==> !#[trigger] game_map.probe_hits(pos, a, b),
                forall|a: int| -1 <= a < kx ==> !#[trigger] game_map.probe_hits(pos, a, ky as int),
            decreases 2 - kx,
        {
            let cx = probe(pos.x, game_map.size.x, game_map.cell_size, kx);
            if cx >= 0 && cx < cols as i128 && cy >= 0 && cy < rows as i128 {
                assert(game_map.cells()[cy as int].len() == cols);
                let hit = game_map.obstacles[cy as usize][cx as usize];
                if hit {
                    assert(game_map.probe_hits(pos, kx as int, ky as int));
                    return true;
                }
            }
            kx = kx + 1;
        }
        ky = ky + 1;
    }
    false
}

} // verus!
