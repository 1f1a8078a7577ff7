//! Procedural generation of the obstacle grid.
use vstd::prelude::*;
use crate::robots::geometry::{Vec2, COORD_LIMIT};
use crate::robots::grid::{
    grid_shape, grid_view, lemma_center_in_range, lemma_center_probe, probe_index, set_cell, GameMap,
};
use rand::rngs::StdRng;
use crate::robots::random::{draw_range, draw_ratio, seeded_rng};

verus! {

/// Scale of the noise samples handed to `generate_map`.
pub const NOISE_SCALE: i64 = 1_000_000;

/// A cell whose noise sample exceeds this (0.55 at `NOISE_SCALE`) is occupied.
pub const NOISE_THRESHOLD: i64 = 550_000;

/// Half the side of the square kept clear around the grid's centre.
pub const SAFE_RADIUS: usize = 5;

/// Number of wall segments carved into grids of at least `WALL_MIN_SIDE`
/// cells each way.
pub const WALL_COUNT: usize = 5;

pub const WALL_MIN_SIDE: usize = 15;

/// The cell `(col, row)` lies within `SAFE_RADIUS` cells, each way, of the
/// centre `(cols / 2, rows / 2)`.
pub open spec fn in_safe_zone(rows: int, cols: int, col: int, row: int) -> bool {
    &&& rows / 2 - SAFE_RADIUS <= row <= rows / 2 + SAFE_RADIUS
    &&& cols / 2 - SAFE_RADIUS <= col <= cols / 2 + SAFE_RADIUS
}

/// Every cell of the map's safe zone is free.
pub open spec fn safe_zone_clear(map: GameMap) -> bool {
    forall|row: int, col: int|
        map.in_grid(col, row) && in_safe_zone(map.rows(), map.cols(), col, row)
            ==> !#[trigger] map.cells()[row][col]
}

/// Occupies the cells of a straight wall of `length` cells from
/// `(start_col, start_row)`, rightward or upward; cells past the grid's edge
/// are left out.
fn carve_wall(
    g: &mut Vec<Vec<bool>>,
    rows: usize,
    cols: usize,
    start_col: usize,
    start_row: usize,
    length: usize,
    horizontal: bool,
)
    requires
        grid_shape(grid_view(*old(g)), rows as int, cols as int),
        start_col < cols,
        start_row < rows,
    ensures
        grid_shape(grid_view(*final(g)), rows as int, cols as int),
        forall|r: int, c: int|
            0 <= r < rows && 0 <= c < cols ==> grid_view(*final(g))[r][c] == (grid_view(
                *old(g),
            )[r][c] || (if horizontal {
                r == start_row && start_col <= c < start_col + length
            } else {
                c == start_col && start_row <= r < start_row + length
            })),
{
    let mut i: usize = 0;
    while i < length
        invariant
            grid_shape(grid_view(*g), rows as int, cols as int),
            start_col < cols,
            start_row < rows,
            i <= length,
            forall|r: int, c: int|
                0 <= r < rows && 0 <= c < cols ==> grid_view(*g)[r][c] == (grid_view(
                    *old(g),
                )[r][c] || (if horizontal {
                    r == start_row && start_col <= c < start_col + i
                } else {
                    c == start_col && start_row <= r < start_row + i
                })),
        decreases length - i,
    {
        if horizontal {
            if i < cols - start_col {
                assert(grid_view(*g)[start_row as int].len() == cols);
                set_cell(g, start_row, start_col + i, true);
            }
        } else {
            if i < rows - start_row {
                assert(grid_view(*g)[(start_row + i) as int].len() == cols);
                set_cell(g, start_row + i, start_col, true);
            }
        }
        i = i + 1;
    }
}

/// Tells whether `(col, row)` lies in the safe zone.
fn safe_zone_contains(rows: usize, cols: usize, col: usize, row: usize) -> (r: bool)
    ensures
        r == in_safe_zone(rows as int, cols as int, col as int, row as int),
{
    let center_row = rows / 2;
    let center_col = cols / 2;
    row as u128 + SAFE_RADIUS as u128 >= center_row as u128 && (row as u128) <= center_row as u128
        + SAFE_RADIUS as u128 && col as u128 + SAFE_RADIUS as u128 >= center_col as u128 && (col as u128)
        <= center_col as u128 + SAFE_RADIUS as u128
}

/// The cells cleared so far by a row-by-row scan that stands at `(x, y)`.
spec fn scanned_safe(rows: int, cols: int, c: int, r: int, y: int, x: int) -> bool {
    in_safe_zone(rows, cols, c, r) && (r < y || (r == y && c < x))
}

/// Frees every cell of the safe zone.
fn clear_safe_zone(g: &mut Vec<Vec<bool>>, rows: usize, cols: usize)
    requires
        grid_shape(grid_view(*old(g)), rows as int, cols as int),
    ensures
        grid_shape(grid_view(*final(g)), rows as int, cols as int),
        forall|r: int, c: int|
            0 <= r < rows && 0 <= c < cols ==> #[trigger] grid_view(*final(g))[r][c] == (grid_view(
                *old(g),
            )[r][c] && !in_safe_zone(rows as int, cols as int, c, r)),
{
    let mut y: usize = 0;
    while y < rows
        invariant
            grid_shape(grid_view(*g), rows as int, cols as int),
            y <= rows,
            forall|r: int, c: int|
                0 <= r < rows && 0 <= c < cols ==> #[trigger] grid_view(*g)[r][c] == (grid_view(
                    *old(g),
                )[r][c] && !scanned_safe(rows as int, cols as int, c, r, y as int, 0)),
        decreases rows - y,
    {
        let mut x: usize = 0;
        while x < cols
            invariant
                grid_shape(grid_view(*g), rows as int, cols as int),
                y < rows,
                x <= cols,
                forall|r: int, c: int|
                    0 <= r < rows && 0 <= c < cols ==> #[trigger] grid_view(*g)[r][c] == (grid_view(
                        *old(g),
                    )[r][c] && !scanned_safe(rows as int, cols as int, c, r, y as int, x as int)),
            decreases cols - x,
        {
            if safe_zone_contains(rows, cols, x, y) {
                assert(grid_view(*g)[y as int].len() == cols);
                set_cell(g, y, x, false);
            }
            x = x + 1;
        }
        y = y + 1;
    }
}

/// A straight wall: `length` cells from `(start_col, start_row)`, rightward
/// when `horizontal`, else upward.
#[derive(Clone, Copy, Debug, PartialEq, Eq, Structural)]
pub struct WallSegment {
    pub start_col: usize,
    pub start_row: usize,
    pub length: usize,
    pub horizontal: bool,
}

pub open spec fn on_wall(w: WallSegment, col: int, row: int) -> bool {
    if w.horizontal {
        row == w.start_row && w.start_col <= col < w.start_col + w.length
    } else {
        col == w.start_col && w.start_row <= row < w.start_row + w.length
    }
}

pub open spec fn on_some_wall(walls: Seq<WallSegment>, col: int, row: int) -> bool {
    exists|i: int| 0 <= i < walls.len() && #[trigger] on_wall(walls[i], col, row)
}

/// A grid of `rows` rows of `cols` values.
pub open spec fn shaped<T>(g: Seq<Seq<T>>, rows: int, cols: int) -> bool {
    &&& g.len() == rows
    &&& forall|r: int| 0 <= r < rows ==> (#[trigger] g[r]).len() == cols
}

pub open spec fn samples_view(n: Vec<Vec<i64>>) -> Seq<Seq<i64>> {
    Seq::new(n@.len(), |r: int| n@[r]@)
}

/// Whether the cell `(col, row)` is occupied: off the safe zone, and its
/// noise sample above `NOISE_THRESHOLD`, or picked as clutter, or on a wall.
pub open spec fn layout(
    noise: Seq<Seq<i64>>,
    clutter: Seq<Seq<bool>>,
    walls: Seq<WallSegment>,
    rows: int,
    cols: int,
    col: int,
    row: int,
) -> bool {
    !in_safe_zone(rows, cols, col, row) && (noise[row][col] > NOISE_THRESHOLD || clutter[row][col]
        || on_some_wall(walls, col, row))
}

/// The walls that generation draws: `WALL_COUNT` of them on grids of at least
/// `WALL_MIN_SIDE` cells each way, none on smaller grids; each starting at
/// least 5 cells from the grid's edges and 3 to 9 cells long.
pub open spec fn drawn_walls(walls: Seq<WallSegment>, rows: int, cols: int) -> bool {
    &&& walls.len() == (if rows >= WALL_MIN_SIDE && cols >= WALL_MIN_SIDE { WALL_COUNT as int } else { 0 })
    &&& forall|i: int|
        0 <= i < walls.len() ==> {
            &&& 5 <= (#[trigger] walls[i]).start_col < cols - 5
            &&& 5 <= walls[i].start_row < rows - 5
            &&& 3 <= walls[i].length < 10
        }
}

/// Builds the obstacle grid from the noise samples, the clutter picks and
/// the walls: a cell is occupied exactly as `layout` says.
pub fn build_obstacles(
    noise: &Vec<Vec<i64>>,
    clutter: &Vec<Vec<bool>>,
    walls: &Vec<WallSegment>,
    rows: usize,
    cols: usize,
) -> (g: Vec<Vec<bool>>)
    requires
        shaped(samples_view(*noise), rows as int, cols as int),
        shaped(grid_view(*clutter), rows as int, cols as int),
        forall|i: int|
            0 <= i < walls@.len() ==> (#[trigger] walls@[i]).start_col < cols && walls@[i].start_row < rows,
    ensures
        grid_shape(grid_view(g), rows as int, cols as int),
        forall|row: int, col: int|
            0 <= row < rows && 0 <= col < cols ==> #[trigger] grid_view(g)[row][col] == layout(
                samples_view(*noise),
                grid_view(*clutter),
                walls@,
                rows as int,
                cols as int,
                col,
                row,
            ),
{
    let ghost nz = samples_view(*noise);
    let ghost cl = grid_view(*clutter);
    let mut g: Vec<Vec<bool>> = Vec::new();
    let mut y: usize = 0;
    while y < rows
        invariant
            shaped(nz, rows as int, cols as int),
            shaped(cl, rows as int, cols as int),
            nz == samples_view(*noise),
            cl == grid_view(*clutter),
            y <= rows,
            grid_shape(grid_view(g), y as int, cols as int),
            forall|row: int, col: int|
                0 <= row < y && 0 <= col < cols ==> #[trigger] grid_view(g)[row][col] == (nz[row][col]
                    > NOISE_THRESHOLD || cl[row][col]),
        decreases rows - y,
    {
        let mut line: Vec<bool> = Vec::new();
        let mut x: usize = 0;
        assert(nz[y as int].len() == cols && cl[y as int].len() == cols);
        while x < cols
            invariant
                shaped(nz, rows as int, cols as int),
                shaped(cl, rows as int, cols as int),
                nz == samples_view(*noise),
                cl == grid_view(*clutter),
                y < rows,
                x <= cols,
                line@.len() == x,
                forall|col: int|
                    0 <= col < x ==> #[trigger] line@[col] == (nz[y as int][col] > NOISE_THRESHOLD
                        || cl[y as int][col]),
            decreases cols - x,
        {
            assert(nz[y as int].len() == cols && cl[y as int].len() == cols);
            line.push(noise[y][x] > NOISE_THRESHOLD || clutter[y][x]);
            x = x + 1;
        }
        let ghost before = grid_view(g);
        g.push(line);
        assert(grid_view(g) =~= before.push(line@));
        y = y + 1;
    }
    let mut w: usize = 0;
    while w < walls.len()
        invariant
            shaped(nz, rows as int, cols as int),
            shaped(cl, rows as int, cols as int),
            forall|i: int|
                0 <= i < walls@.len() ==> (#[trigger] walls@[i]).start_col < cols && walls@[i].start_row < rows,
            w <= walls@.len(),
            grid_shape(grid_view(g), rows as int, cols as int),
            forall|row: int, col: int|
                0 <= row < rows && 0 <= col < cols ==> #[trigger] grid_view(g)[row][col] == (nz[row][col]
                    > NOISE_THRESHOLD || cl[row][col] || on_some_wall(walls@.subrange(0, w as int), col, row)),
        decreases walls@.len() - w,
    {
        let seg = walls[w];
        let ghost prev = grid_view(g);
        carve_wall(&mut g, rows, cols, seg.start_col, seg.start_row, seg.length, seg.horizontal);
        proof {
            let done = walls@.subrange(0, w as int);
            let next = walls@.subrange(0, w + 1);
            assert forall|row: int, col: int|
                0 <= row < rows && 0 <= col < cols implies on_some_wall(next, col, row) == (on_some_wall(
                    done,
                    col,
                    row,
                ) || on_wall(seg, col, row)) by {
                if on_some_wall(next, col, row) {
                    let i = choose|i: int| 0 <= i < next.len() && #[trigger] on_wall(next[i], col, row);
                    if i < w {
                        assert(on_wall(done[i], col, row));
                    }
                }
                if on_some_wall(done, col, row) {
                    let i = choose|i: int| 0 <= i < done.len() && #[trigger] on_wall(done[i], col, row);
                    assert(on_wall(next[i], col, row));
                }
                if on_wall(seg, col, row) {
                    assert(on_wall(next[w as int], col, row));
                }
            }
        }
        w = w + 1;
    }
    assert(walls@.subrange(0, w as int) =~= walls@);
    clear_safe_zone(&mut g, rows, cols);
    g
}

/// One clutter pick per cell, each true with chance one in twenty.
fn draw_clutter(rng: &mut StdRng, rows: usize, cols: usize) -> (c: Vec<Vec<bool>>)
    ensures
        shaped(grid_view(c), rows as int, cols as int),
{
    let mut c: Vec<Vec<bool>> = Vec::new();
    let mut y: usize = 0;
    while y < rows
        invariant
            y <= rows,
            shaped(grid_view(c), y as int, cols as int),
        decreases rows - y,
    {
        let mut line: Vec<bool> = Vec::new();
        let mut x: usize = 0;
        while x < cols
            invariant
                x <= cols,
                line@.len() == x,
            decreases cols - x,
        {
            line.push(draw_ratio(rng, 1, 20));
            x = x + 1;
        }
        let ghost before = grid_view(c);
        c.push(line);
        assert(grid_view(c) =~= before.push(line@));
        y = y + 1;
    }
    c
}

/// The random walls of a grid of `rows` by `cols` cells.
fn draw_walls(rng: &mut StdRng, rows: usize, cols: usize) -> (walls: Vec<WallSegment>)
    requires
        rows <= COORD_LIMIT,
        cols <= COORD_LIMIT,
    ensures
        drawn_walls(walls@, rows as int, cols as int),
{
    let mut walls: Vec<WallSegment> = Vec::new();
    if cols >= WALL_MIN_SIDE && rows >= WALL_MIN_SIDE {
        let mut w: usize = 0;
        while w < WALL_COUNT
            invariant
                WALL_MIN_SIDE <= cols <= COORD_LIMIT,
                WALL_MIN_SIDE <= rows <= COORD_LIMIT,
                w <= WALL_COUNT,
                walls@.len() == w,
                forall|i: int|
                    0 <= i < walls@.len() ==> {
                        &&& 5 <= (#[trigger] walls@[i]).start_col < cols - 5
                        &&& 5 <= walls@[i].start_row < rows - 5
                        &&& 3 <= walls@[i].length < 10
                    },
            decreases WALL_COUNT - w,
        {
            let start_col = draw_range(rng, 5, (cols - 5) as i64) as usize;
            let start_row = draw_range(rng, 5, (rows - 5) as i64) as usize;
            let length = draw_range(rng, 3, 10) as usize;
            let horizontal = draw_ratio(rng, 1, 2);
            walls.push(WallSegment { start_col, start_row, length, horizontal });
            w = w + 1;
        }
    }
    walls
}

/// Builds the obstacle grid of a `width` by `height` world cut in cells of
/// `cell_size`, from coherent-noise samples: `noise[row][col]` is the sample
/// at `(col * 0.07, row * 0.07)` scaled by `NOISE_SCALE`. The clutter picks
/// and the walls are drawn from a generator seeded with `seed`, and the grid
/// is `build_obstacles` of the three.
pub fn generate_map(width: i64, height: i64, cell_size: i64, seed: u32, noise: &Vec<Vec<i64>>) -> (r: GameMap)
    requires
        0 < cell_size,
        0 < width <= COORD_LIMIT,
        0 < height <= COORD_LIMIT,
        1 <= width / cell_size <= usize::MAX,
        1 <= height / cell_size <= usize::MAX,
        noise@.len() == height / cell_size,
        forall|row: int| 0 <= row < noise@.len() ==> (#[trigger] noise@[row])@.len() == width / cell_size,
    ensures
        r.wf(),
        r.size == (Vec2 { x: width, y: height }),
        r.cell_size == cell_size,
        r.seed == seed,
        r.rows() == height / cell_size,
        r.cols() == width / cell_size,
        exists|clutter: Seq<Seq<bool>>, walls: Seq<WallSegment>|
            shaped(clutter, r.rows(), r.cols()) && drawn_walls(walls, r.rows(), r.cols()) && #[trigger] generated_from(
                r,
                samples_view(*noise),
                clutter,
                walls,
            ),
        safe_zone_clear(r),
        forall|row: int, col: int|
            r.in_grid(col, row) && !in_safe_zone(r.rows(), r.cols(), col, row)
                && noise@[row]@[col] > NOISE_THRESHOLD ==> #[trigger] r.cells()[row][col],
{
    let rows = (height / cell_size) as usize;
    let cols = (width / cell_size) as usize;
    assert(cols <= width && rows <= height) by (nonlinear_arith)
        requires
            cols == width / cell_size,
            rows == height / cell_size,
            cell_size >= 1,
            width > 0,
            height > 0,
    ;
    let mut rng = seeded_rng(seed as u64);
    let clutter = draw_clutter(&mut rng, rows, cols);
    let walls = draw_walls(&mut rng, rows, cols);
    assert(shaped(samples_view(*noise), rows as int, cols as int));
    let obstacles = build_obstacles(noise, &clutter, &walls, rows, cols);
    let map = GameMap { size: Vec2 { x: width, y: height }, cell_size, obstacles, seed };
    proof {
        assert(map.cells() == grid_view(map.obstacles));
        assert(map.rows() == rows);
        assert(map.cells()[0].len() == cols);
        assert(map.cols() == cols);
        assert(cols * cell_size <= width) by (nonlinear_arith)
            requires
                cols == width / cell_size,
                cell_size > 0,
                width > 0,
        ;
        assert(rows * cell_size <= height) by (nonlinear_arith)
            requires
                rows == height / cell_size,
                cell_size > 0,
                height > 0,
        ;
        assert(generated_from(map, samples_view(*noise), grid_view(clutter), walls@));
        assert forall|row: int, col: int|
            map.in_grid(col, row) && !in_safe_zone(map.rows(), map.cols(), col, row)
                && noise@[row]@[col] > NOISE_THRESHOLD implies #[trigger] map.cells()[row][col] by {
            assert(samples_view(*noise)[row] == noise@[row]@);
        }
    }
    map
}

/// The map's cells are laid out, as `layout` says, from these noise samples,
/// clutter picks and walls.
pub open spec fn generated_from(map: GameMap, noise: Seq<Seq<i64>>, clutter: Seq<Seq<bool>>, walls: Seq<WallSegment>) -> bool {
    forall|row: int, col: int|
        map.in_grid(col, row) ==> #[trigger] map.cells()[row][col] == layout(
            noise,
            clutter,
            walls,
            map.rows(),
            map.cols(),
            col,
            row,
        )
}

/// Right after generation, every cell of the five by five block centred on
/// the grid's centre that lies in the grid is free, and an agent standing at
/// the centre of such a cell is not blocked.
pub proof fn lemma_center_block_clear(map: GameMap, col: int, row: int)
    requires
        map.wf(),
        safe_zone_clear(map),
        map.in_grid(col, row),
        map.cols() / 2 - 2 <= col <= map.cols() / 2 + 2,
        map.rows() / 2 - 2 <= row <= map.rows() / 2 + 2,
    ensures
        !map.occupied(col, row),
        !map.is_blocked(map.cell_center(col, row)),
{
    let s = map.cell_size as int;
    let w = map.size.x as int;
    let h = map.size.y as int;
    let p = map.cell_center(col, row);
    lemma_center_in_range(col, map.cols(), s, w);
    lemma_center_in_range(row, map.rows(), s, h);
    assert(p.x == ((2 * col + 1) * s - w) / 2);
    assert(p.y == ((2 * row + 1) * s - h) / 2);
    lemma_center_probe(col, s, w, 0);
    lemma_center_probe(row, s, h, 0);
    assert(map.col_of(p) == col && map.row_of(p) == row);
    assert forall|kx: int, ky: int| -1 <= kx <= 1 && -1 <= ky <= 1 implies !#[trigger] map.probe_hits(
        p,
        kx,
        ky,
    ) by {
        lemma_center_probe(col, s, w, kx);
        lemma_center_probe(row, s, h, ky);
        let c = probe_index(p.x as int, w, s, kx);
        let r = probe_index(p.y as int, h, s, ky);
        if map.in_grid(c, r) {
            assert(in_safe_zone(map.rows(), map.cols(), c, r));
        }
    }
}

} // verus!
