//! Grid path search: A* over the 8-connected free cells, with unit step cost
//! and the Manhattan distance as heuristic.
use vstd::prelude::*;
use crate::robots::geometry::{Vec2, COORD_LIMIT};
use crate::robots::grid::{lemma_cell_of_center, probe, GameMap};

verus! {

/// A cell as `(col, row)`.
pub type Cell = (int, int);

/// Two distinct cells that touch by a side or a corner.
pub open spec fn neighbours(a: Cell, b: Cell) -> bool {
    &&& a != b
    &&& -1 <= a.0 - b.0 <= 1
    &&& -1 <= a.1 - b.1 <= 1
}

/// The cell lies in the grid and is free.
pub open spec fn passable(map: GameMap, c: Cell) -> bool {
    map.in_grid(c.0, c.1) && !map.cells()[c.1][c.0]
}

/// A walk over free cells, each step to a neighbouring cell.
pub open spec fn is_walk(map: GameMap, cells: Seq<Cell>) -> bool {
    &&& cells.len() >= 1
    &&& forall|i: int| 0 <= i < cells.len() ==> passable(map, #[trigger] cells[i])
    &&& forall|i: int| 0 <= i < cells.len() - 1 ==> neighbours(#[trigger] cells[i], cells[i + 1])
}

/// Some walk leads from `s` to `g`.
pub open spec fn reachable(map: GameMap, s: Cell, g: Cell) -> bool {
    exists|cells: Seq<Cell>| #[trigger] is_walk(map, cells) && cells[0] == s && cells.last() == g
}

pub open spec fn cell_of(map: GameMap, p: Vec2) -> Cell {
    (map.col_of(p), map.row_of(p))
}

/// No cell occurs twice.
pub open spec fn distinct_cells(cells: Seq<Cell>) -> bool {
    forall|i: int, j: int| #![trigger cells[i], cells[j]] 0 <= i < j < cells.len() ==> cells[i] != cells[j]
}

/// `path` is the centres of the cells of a walk from `s` to `g` that visits
/// no cell twice.
pub open spec fn follows(map: GameMap, path: Seq<Vec2>, s: Cell, g: Cell) -> bool {
    &&& is_walk(map, path.map_values(|p: Vec2| cell_of(map, p)))
    &&& distinct_cells(path.map_values(|p: Vec2| cell_of(map, p)))
    &&& cell_of(map, path[0]) == s
    &&& cell_of(map, path.last()) == g
    &&& forall|i: int|
        0 <= i < path.len() ==> #[trigger] path[i] == map.cell_center(
            cell_of(map, path[i]).0,
            cell_of(map, path[i]).1,
        )
}

/// The search state of one cell.
#[derive(Clone, Copy, Debug, PartialEq, Eq, Structural)]
pub struct Node {
    pub cost: u128,
    pub parent_col: usize,
    pub parent_row: usize,
    pub discovered: bool,
    pub closed: bool,
}

/// An entry of the open list: a cell and its priority, cost plus heuristic.
#[derive(Clone, Copy, Debug, PartialEq, Eq, Structural)]
pub struct OpenEntry {
    pub priority: u128,
    pub col: usize,
    pub row: usize,
}

pub open spec fn nodes_view(n: Vec<Vec<Node>>) -> Seq<Seq<Node>> {
    Seq::new(n@.len(), |r: int| n@[r]@)
}

pub open spec fn row_closed(row: Seq<Node>) -> int
    decreases row.len(),
{
    if row.len() == 0 {
        0
    } else {
        row_closed(row.drop_last()) + if row.last().closed { 1int } else { 0 }
    }
}

pub open spec fn count_closed(g: Seq<Seq<Node>>) -> int
    decreases g.len(),
{
    if g.len() == 0 {
        0
    } else {
        count_closed(g.drop_last()) + row_closed(g.last())
    }
}

proof fn lemma_row_closed_update(row: Seq<Node>, c: int, v: Node)
    requires
        0 <= c < row.len(),
    ensures
        row_closed(row.update(c, v)) == row_closed(row) - (if row[c].closed { 1int } else { 0 }) + (
        if v.closed { 1int } else { 0 }),
    decreases row.len(),
{
    let u = row.update(c, v);
    if c == row.len() - 1 {
        assert(u.drop_last() =~= row.drop_last());
    } else {
        assert(u.drop_last() =~= row.drop_last().update(c, v));
        lemma_row_closed_update(row.drop_last(), c, v);
    }
}

proof fn lemma_count_closed_update(g: Seq<Seq<Node>>, r: int, row: Seq<Node>)
    requires
        0 <= r < g.len(),
    ensures
        count_closed(g.update(r, row)) == count_closed(g) - row_closed(g[r]) + row_closed(row),
    decreases g.len(),
{
    let u = g.update(r, row);
    if r == g.len() - 1 {
        assert(u.drop_last() =~= g.drop_last());
    } else {
        assert(u.drop_last() =~= g.drop_last().update(r, row));
        lemma_count_closed_update(g.drop_last(), r, row);
    }
}

proof fn lemma_row_closed_bound(row: Seq<Node>)
    ensures
        0 <= row_closed(row) <= row.len(),
    decreases row.len(),
{
    if row.len() > 0 {
        lemma_row_closed_bound(row.drop_last());
    }
}

proof fn lemma_count_closed_bound(g: Seq<Seq<Node>>, cols: int)
    requires
        forall|r: int| 0 <= r < g.len() ==> (#[trigger] g[r]).len() == cols,
    ensures
        0 <= count_closed(g) <= g.len() * cols,
    decreases g.len(),
{
    if g.len() > 0 {
        lemma_count_closed_bound(g.drop_last(), cols);
        lemma_row_closed_bound(g.last());
        assert(g.len() * cols == (g.len() - 1) * cols + cols) by (nonlinear_arith);
    }
}

/// Manhattan distance between two cells.
pub open spec fn manhattan(a: Cell, b: Cell) -> int {
    (if a.0 >= b.0 { a.0 - b.0 } else { b.0 - a.0 }) + (if a.1 >= b.1 { a.1 - b.1 } else { b.1 - a.1 })
}

fn manhattan_exec(c: usize, r: usize, gc: usize, gr: usize) -> (d: u128)
    ensures
        d == manhattan((c as int, r as int), (gc as int, gr as int)),
{
    let dc = if c >= gc { c - gc } else { gc - c };
    let dr = if r >= gr { r - gr } else { gr - r };
    dc as u128 + dr as u128
}

/// The world position of the centre of a cell.
fn center_exec(map: &GameMap, col: usize, row: usize) -> (p: Vec2)
    requires
        map.wf(),
        map.in_grid(col as int, row as int),
    ensures
        p == map.cell_center(col as int, row as int),
{
    let x = half_floor(col, map.cell_size, map.size.x, Ghost(map.cols()));
    let y = half_floor(row, map.cell_size, map.size.y, Ghost(map.rows()));
    Vec2 { x, y }
}

/// `((2 * i + 1) * cell - dim) / 2`, rounded down.
fn half_floor(i: usize, cell: i64, dim: i64, Ghost(n): Ghost<int>) -> (r: i64)
    requires
        0 < cell,
        0 <= i < n,
        n * cell <= dim <= COORD_LIMIT,
    ensures
        r == ((2 * i + 1) * cell - dim) / 2,
{
    assert((2 * i + 1) * cell <= 2 * (n * cell)) by (nonlinear_arith)
        requires
            0 <= i < n,
            cell > 0,
    ;
    assert((2 * i + 1) * cell >= 0) by (nonlinear_arith)
        requires
            0 <= i,
            cell > 0,
    ;
    let big = (2 * (i as i128) + 1) * (cell as i128) - dim as i128;
    if big >= 0 {
        (big / 2) as i64
    } else {
        let q = (-big + 1) / 2;
        proof {
            let m = -big + 1;
            assert(m == 2 * q + m % 2);
            vstd::arithmetic::div_mod::lemma_fundamental_div_mod_converse(big as int, 2, -q, 1 - m % 2);
        }
        (-q) as i64
    }
}

pub open spec fn nd(nodes: Seq<Seq<Node>>, c: Cell) -> Node {
    nodes[c.1][c.0]
}

pub open spec fn parent_of(nodes: Seq<Seq<Node>>, c: Cell) -> Cell {
    (nd(nodes, c).parent_col as int, nd(nodes, c).parent_row as int)
}

pub open spec fn entry_cell(e: OpenEntry) -> Cell {
    (e.col as int, e.row as int)
}

/// What holds of the search state between two steps of the search from
/// `s` toward `g`: every discovered cell is free and reached through a
/// closed parent one step cheaper; every open cell has an entry in the open
/// list; every neighbour of a closed cell is discovered; the goal is not
/// closed.
pub open spec fn search_ok(map: GameMap, nodes: Seq<Seq<Node>>, open: Seq<OpenEntry>, s: Cell, g: Cell) -> bool {
    expanding(map, nodes, open, s, g, s, 9)
}

/// The index of the direction from `c` to its neighbour `n`, from 0 to 8.
pub open spec fn dir_index(c: Cell, n: Cell) -> int {
    (n.1 - c.1 + 1) * 3 + (n.0 - c.0 + 1)
}

/// `search_ok`, but for the cell `cur`, being expanded, of whose neighbours
/// only those in the directions below `upto` need be discovered.
pub open spec fn expanding(
    map: GameMap,
    nodes: Seq<Seq<Node>>,
    open: Seq<OpenEntry>,
    s: Cell,
    g: Cell,
    cur: Cell,
    upto: int,
) -> bool {
    &&& nodes.len() == map.rows()
    &&& forall|r: int| 0 <= r < map.rows() ==> (#[trigger] nodes[r]).len() == map.cols()
    &&& passable(map, s)
    &&& passable(map, g)
    &&& nd(nodes, s).discovered
    &&& nd(nodes, s).cost == 0
    &&& !nd(nodes, g).closed
    &&& tree_ok(map, nodes, s)
    &&& closed_discovered(map, nodes)
    &&& open_covers(map, nodes, open)
    &&& entries_ok(map, nodes, open)
    &&& frontier_ok(map, nodes, cur, upto)
}

/// Every discovered cell is free, costs at most the number of closed cells,
/// and but for the start has a closed neighbour as parent, one step cheaper.
#[verifier::opaque]
pub open spec fn tree_ok(map: GameMap, nodes: Seq<Seq<Node>>, s: Cell) -> bool {
    forall|c: Cell|
        map.in_grid(c.0, c.1) && (#[trigger] nd(nodes, c)).discovered ==> {
            &&& passable(map, c)
            &&& nd(nodes, c).cost <= count_closed(nodes)
            &&& c != s ==> {
                &&& map.in_grid(parent_of(nodes, c).0, parent_of(nodes, c).1)
                &&& nd(nodes, parent_of(nodes, c)).closed
                &&& neighbours(c, parent_of(nodes, c))
                &&& nd(nodes, c).cost == nd(nodes, parent_of(nodes, c)).cost + 1
            }
        }
}

#[verifier::opaque]
pub open spec fn closed_discovered(map: GameMap, nodes: Seq<Seq<Node>>) -> bool {
    forall|c: Cell| map.in_grid(c.0, c.1) && (#[trigger] nd(nodes, c)).closed ==> nd(nodes, c).discovered
}

/// Every discovered cell that is not closed has an entry in the open list.
#[verifier::opaque]
pub open spec fn open_covers(map: GameMap, nodes: Seq<Seq<Node>>, open: Seq<OpenEntry>) -> bool {
    forall|c: Cell|
        map.in_grid(c.0, c.1) && (#[trigger] nd(nodes, c)).discovered && !nd(nodes, c).closed
            ==> exists|k: int| 0 <= k < open.len() && entry_cell(#[trigger] open[k]) == c
}

/// Every entry of the open list is for a discovered cell of the grid.
#[verifier::opaque]
pub open spec fn entries_ok(map: GameMap, nodes: Seq<Seq<Node>>, open: Seq<OpenEntry>) -> bool {
    forall|k: int|
        0 <= k < open.len() ==> map.in_grid(entry_cell(#[trigger] open[k]).0, entry_cell(open[k]).1)
            && nd(nodes, entry_cell(open[k])).discovered
}

/// Every free neighbour of a closed cell is discovered; for `cur`, only
/// those in the directions below `upto`.
#[verifier::opaque]
pub open spec fn frontier_ok(map: GameMap, nodes: Seq<Seq<Node>>, cur: Cell, upto: int) -> bool {
    forall|c: Cell, n: Cell|
        map.in_grid(c.0, c.1) && (#[trigger] nd(nodes, c)).closed && neighbours(c, n) && #[trigger] passable(
            map,
            n,
        ) && (c != cur || dir_index(c, n) < upto) ==> nd(nodes, n).discovered
}

fn set_node(g: &mut Vec<Vec<Node>>, row: usize, col: usize, v: Node)
    requires
        row < old(g)@.len(),
        col < old(g)@[row as int]@.len(),
    ensures
        nodes_view(*final(g)) == nodes_view(*old(g)).update(
            row as int,
            nodes_view(*old(g))[row as int].update(col as int, v),
        ),
{
    let mut line = Vec::new();
    std::mem::swap(&mut line, &mut g[row]);
    line.set(col, v);
    std::mem::swap(&mut line, &mut g[row]);
    assert(nodes_view(*g) =~= nodes_view(*old(g)).update(
        row as int,
        nodes_view(*old(g))[row as int].update(col as int, v),
    ));
}

/// Every cell of a walk that starts on a closed cell is closed, once every
/// discovered cell is closed.
proof fn lemma_walk_closed(map: GameMap, nodes: Seq<Seq<Node>>, cells: Seq<Cell>, k: int)
    requires
        frontier_ok(map, nodes, cells[0], 9),
        forall|c: Cell| map.in_grid(c.0, c.1) && (#[trigger] nd(nodes, c)).discovered ==> nd(nodes, c).closed,
        is_walk(map, cells),
        nd(nodes, cells[0]).closed,
        0 <= k < cells.len(),
    ensures
        nd(nodes, cells[k]).closed,
    decreases k,
{
    if k > 0 {
        lemma_walk_closed(map, nodes, cells, k - 1);
        let c = cells[k - 1];
        let n = cells[k];
        assert(neighbours(cells[k - 1], cells[k - 1 + 1]));
        assert(passable(map, cells[k]));
        assert(passable(map, cells[k - 1]));
        reveal(frontier_ok);
        assert(nd(nodes, c).closed);
        assert(dir_index(c, n) < 9);
        assert(nd(nodes, n).discovered);
    }
}

/// Searches the 8-connected free cells for a path from the cell of `start`
/// to the cell of `goal` by A*: unit cost per step, diagonal steps
/// included, the Manhattan distance to the goal as heuristic, the open cell
/// of least cost plus heuristic expanded first, the earliest entered on a
/// tie. Returns the centres of the cells of the path found, from start to
/// goal, or `None` when no path exists.
pub fn find_path_a_star(start: Vec2, goal: Vec2, game_map: &GameMap) -> (r: Option<Vec<Vec2>>)
    requires
        game_map.wf(),
    ensures
        r is Some <==> reachable(*game_map, cell_of(*game_map, start), cell_of(*game_map, goal)),
        r matches Some(path) ==> follows(
            *game_map,
            path@,
            cell_of(*game_map, start),
            cell_of(*game_map, goal),
        ),
{
    let map = game_map;
    let rows = map.obstacles.len();
    let cols = map.obstacles[0].len();
    let ghost s: Cell = cell_of(*map, start);
    let ghost g: Cell = cell_of(*map, goal);
    let sci = probe(start.x, map.size.x, map.cell_size, 0);
    let sri = probe(start.y, map.size.y, map.cell_size, 0);
    let gci = probe(goal.x, map.size.x, map.cell_size, 0);
    let gri = probe(goal.y, map.size.y, map.cell_size, 0);
    if sci < 0 || sci >= cols as i128 || sri < 0 || sri >= rows as i128 || gci < 0 || gci >= cols as i128
        || gri < 0 || gri >= rows as i128 {
        proof {
            if reachable(*map, s, g) {
                let cells = choose|cells: Seq<Cell>| #[trigger] is_walk(*map, cells) && cells[0] == s && cells.last() == g;
                assert(passable(*map, cells[0]));
                assert(passable(*map, cells[cells.len() - 1]));
            }
        }
        return None;
    }
    let sc = sci as usize;
    let sr = sri as usize;
    let gc = gci as usize;
    let gr = gri as usize;
    assert(map.cells()[sr as int].len() == cols);
    assert(map.cells()[gr as int].len() == cols);
    if map.obstacles[sr][sc] || map.obstacles[gr][gc] {
        proof {
            if reachable(*map, s, g) {
                let cells = choose|cells: Seq<Cell>| #[trigger] is_walk(*map, cells) && cells[0] == s && cells.last() == g;
                assert(passable(*map, cells[0]));
                assert(passable(*map, cells[cells.len() - 1]));
            }
        }
        return None;
    }
    let blank = Node { cost: 0, parent_col: 0, parent_row: 0, discovered: false, closed: false };
    let mut nodes: Vec<Vec<Node>> = Vec::new();
    let mut y: usize = 0;
    while y < rows
        invariant
            y <= rows,
            nodes@.len() == y,
            forall|r: int| 0 <= r < y ==> (#[trigger] nodes_view(nodes)[r]).len() == cols,
            forall|r: int, c: int| 0 <= r < y && 0 <= c < cols ==> #[trigger] nodes_view(nodes)[r][c] == blank,
        decreases rows - y,
    {
        let mut line: Vec<Node> = Vec::new();
        let mut x: usize = 0;
        while x < cols
            invariant
                x <= cols,
                line@.len() == x,
                forall|c: int| 0 <= c < x ==> #[trigger] line@[c] == blank,
            decreases cols - x,
        {
            line.push(blank);
            x = x + 1;
        }
        let ghost prev = nodes_view(nodes);
        nodes.push(line);
        assert(nodes_view(nodes) =~= prev.push(line@));
        y = y + 1;
    }
    assert(nodes_view(nodes)[sr as int].len() == cols);
    let ghost nv_blank = nodes_view(nodes);
    set_node(&mut nodes, sr, sc, Node { cost: 0, parent_col: sc, parent_row: sr, discovered: true, closed: false });
    let mut open: Vec<OpenEntry> = Vec::new();
    let h0 = manhattan_exec(sc, sr, gc, gr);
    open.push(OpenEntry { priority: h0, col: sc, row: sr });
    proof {
        let nv = nodes_view(nodes);
        assert forall|c: Cell| map.in_grid(c.0, c.1) implies !#[trigger] nd(nv, c).closed by {}
        lemma_zero_closed(nv, rows as int, cols as int);
        assert(open@[0] == OpenEntry { priority: h0, col: sc, row: sr });
        lemma_nd_update(*map, nv_blank, s, Node { cost: 0, parent_col: sc, parent_row: sr, discovered: true, closed: false });
        assert(tree_ok(*map, nv, s)) by {
            reveal(tree_ok);
        }
        assert(closed_discovered(*map, nv)) by {
            reveal(closed_discovered);
        }
        assert(open_covers(*map, nv, open@)) by {
            reveal(open_covers);
            assert(entry_cell(open@[0]) == s);
        }
        assert(entries_ok(*map, nv, open@)) by {
            reveal(entries_ok);
        }
        assert(frontier_ok(*map, nv, s, 9)) by {
            reveal(frontier_ok);
        }
        assert(search_ok(*map, nv, open@, s, g));
    }
    proof {
        lemma_priority_bound(rows as int, cols as int);
    }
    while open.len() > 0
        invariant
            map.wf(),
            rows == map.rows(),
            cols == map.cols(),
            s == (sc as int, sr as int),
            g == (gc as int, gr as int),
            s == cell_of(*game_map, start),
            g == cell_of(*game_map, goal),
            map == game_map,
            search_ok(*map, nodes_view(nodes), open@, s, g),
            nodes@.len() == rows,
            (rows as int) * (cols as int) + rows + cols <= u128::MAX,
        decreases (rows as int) * (cols as int) - count_closed(nodes_view(nodes)), open@.len(),
    {
        let mut best: usize = 0;
        let mut i: usize = 1;
        while i < open.len()
            invariant
                best < i <= open@.len(),
            decreases open@.len() - i,
        {
            if open[i].priority < open[best].priority {
                best = i;
            }
            i = i + 1;
        }
        let ghost nv0 = nodes_view(nodes);
        let ghost open0 = open@;
        let e = open.remove(best);
        proof {
            lemma_count_closed_bound(nv0, cols as int);
            assert(e == open0[best as int]);
            reveal(entries_ok);
            assert(map.in_grid(entry_cell(open0[best as int]).0, entry_cell(open0[best as int]).1));
            assert(nd(nv0, entry_cell(open0[best as int])).discovered);
            assert(nv0[e.row as int].len() == cols);
            reveal(tree_ok);
            assert(nd(nv0, entry_cell(e)).cost <= count_closed(nv0));
        }
        let cur = nodes[e.row][e.col];
        assert(cur == nd(nv0, entry_cell(e)));
        if cur.closed {
            proof {
                lemma_drop_stale(*map, nv0, open0, s, g, best as int);
            }
            continue;
        }
        if e.col == gc && e.row == gr {
            let path = trace_back(map, &nodes, Ghost(open0), Ghost(s), Ghost(g), sc, sr, gc, gr);
            proof {
                let w = path@.map_values(|p: Vec2| cell_of(*map, p));
                assert(w[0] == s);
                assert(w.last() == g);
                assert(is_walk(*map, w));
            }
            return Some(path);
        }
        let ghost cc: Cell = entry_cell(e);
        set_node(&mut nodes, e.row, e.col, Node { closed: true, ..cur });
        proof {
            let nv1 = nodes_view(nodes);
            lemma_row_closed_update(nv0[e.row as int], e.col as int, Node { closed: true, ..cur });
            lemma_count_closed_update(nv0, e.row as int, nv1[e.row as int]);
            lemma_close(*map, nv0, nv1, open0, open@, s, g, cc, best as int);
            lemma_nd_update(*map, nv0, cc, Node { closed: true, ..cur });
            lemma_count_closed_bound(nv1, cols as int);
        }
        let ghost count1 = count_closed(nodes_view(nodes));
        let mut k: usize = 0;
        while k < 9
            invariant
                map.wf(),
                rows == map.rows(),
                cols == map.cols(),
                s == (sc as int, sr as int),
                g == (gc as int, gr as int),
                nodes@.len() == rows,
                (rows as int) * (cols as int) + rows + cols <= u128::MAX,
                cc == entry_cell(e),
                cc != g,
                map.in_grid(cc.0, cc.1),
                nd(nodes_view(nodes), cc) == (Node { closed: true, ..cur }),
                k <= 9,
                expanding(*map, nodes_view(nodes), open@, s, g, cc, k as int),
                count_closed(nodes_view(nodes)) == count1,
                cur.cost + 1 <= count1 <= (rows as int) * (cols as int),
            decreases 9 - k,
        {
            let dx: i128 = (k % 3) as i128 - 1;
            let dy: i128 = (k / 3) as i128 - 1;
            let nc = e.col as i128 + dx;
            let nr = e.row as i128 + dy;
            let ghost nb: Cell = (nc as int, nr as int);
            let ghost nv2 = nodes_view(nodes);
            let ghost open2 = open@;
            if k != 4 && 0 <= nc && nc < cols as i128 && 0 <= nr && nr < rows as i128 {
                let ncu = nc as usize;
                let nru = nr as usize;
                assert(map.cells()[nru as int].len() == cols);
                assert(nv2[nru as int].len() == cols);
                if !map.obstacles[nru][ncu] {
                    let old_node = nodes[nru][ncu];
                    let ng = cur.cost + 1;
                    if !old_node.closed && (!old_node.discovered || ng < old_node.cost) {
                        let fresh = Node { cost: ng, parent_col: e.col, parent_row: e.row, discovered: true, closed: false };
                        set_node(&mut nodes, nru, ncu, fresh);
                        let h = manhattan_exec(ncu, nru, gc, gr);
                        open.push(OpenEntry { priority: ng + h, col: ncu, row: nru });
                        proof {
                            let nv3 = nodes_view(nodes);
                            lemma_row_closed_update(nv2[nru as int], ncu as int, fresh);
                            lemma_count_closed_update(nv2, nru as int, nv3[nru as int]);
                            assert(entry_cell(open@[open2.len() as int]) == nb);
                            lemma_discover(*map, nv2, nv3, open2, open@, s, g, cc, k as int, nb, fresh);
                        }
                    } else {
                        proof {
                            lemma_step_kept(*map, nv2, open2, s, g, cc, k as int, nb);
                        }
                    }
                } else {
                    proof {
                        lemma_step_kept(*map, nv2, open2, s, g, cc, k as int, nb);
                    }
                }
            } else {
                proof {
                    lemma_step_kept(*map, nv2, open2, s, g, cc, k as int, nb);
                }
            }
            k = k + 1;
        }
        proof {
            lemma_expanded(*map, nodes_view(nodes), open@, s, g, cc);
        }
    }
    proof {
        if reachable(*map, s, g) {
            let cells = choose|cells: Seq<Cell>| #[trigger] is_walk(*map, cells) && cells[0] == s && cells.last() == g;
            lemma_all_closed(*map, nodes_view(nodes), open@, s, g);
            lemma_walk_closed(*map, nodes_view(nodes), cells, cells.len() - 1);
        }
    }
    None
}

proof fn lemma_zero_closed(nodes: Seq<Seq<Node>>, rows: int, cols: int)
    requires
        nodes.len() == rows,
        forall|r: int| 0 <= r < rows ==> (#[trigger] nodes[r]).len() == cols,
        forall|r: int, c: int| 0 <= r < rows && 0 <= c < cols ==> !(#[trigger] nodes[r][c]).closed,
    ensures
        count_closed(nodes) == 0,
    decreases nodes.len(),
{
    if nodes.len() > 0 {
        lemma_zero_closed(nodes.drop_last(), rows - 1, cols);
        lemma_row_zero(nodes.last());
    }
}

proof fn lemma_row_zero(row: Seq<Node>)
    requires
        forall|c: int| 0 <= c < row.len() ==> !(#[trigger] row[c]).closed,
    ensures
        row_closed(row) == 0,
    decreases row.len(),
{
    if row.len() > 0 {
        lemma_row_zero(row.drop_last());
    }
}

proof fn lemma_priority_bound(rows: int, cols: int)
    requires
        0 <= rows <= usize::MAX,
        0 <= cols <= usize::MAX,
    ensures
        rows * cols + rows + cols <= u128::MAX,
{
    assert((rows + 1) * (cols + 1) <= 0x1_0000_0000_0000_0000 * 0x1_0000_0000_0000_0000) by (nonlinear_arith)
        requires
            0 <= rows + 1 <= 0x1_0000_0000_0000_0000,
            0 <= cols + 1 <= 0x1_0000_0000_0000_0000,
    ;
    assert((rows + 1) * (cols + 1) == rows * cols + rows + cols + 1) by (nonlinear_arith);
}

/// The cells of `nodes` with the cell `c0` set to `v`.
proof fn lemma_nd_update(map: GameMap, nodes: Seq<Seq<Node>>, c0: Cell, v: Node)
    requires
        nodes.len() == map.rows(),
        forall|r: int| 0 <= r < map.rows() ==> (#[trigger] nodes[r]).len() == map.cols(),
        map.in_grid(c0.0, c0.1),
    ensures
        ({
            let u = nodes.update(c0.1, nodes[c0.1].update(c0.0, v));
            &&& u.len() == map.rows()
            &&& forall|r: int| 0 <= r < map.rows() ==> (#[trigger] u[r]).len() == map.cols()
            &&& forall|c: Cell|
                map.in_grid(c.0, c.1) ==> #[trigger] nd(u, c) == (if c == c0 { v } else { nd(nodes, c) })
        }),
{
}

/// Every discovered cell but `x` that is not closed has an entry in the
/// open list.
#[verifier::opaque]
pub open spec fn open_covers_but(map: GameMap, nodes: Seq<Seq<Node>>, open: Seq<OpenEntry>, x: Cell) -> bool {
    forall|c: Cell|
        map.in_grid(c.0, c.1) && (#[trigger] nd(nodes, c)).discovered && !nd(nodes, c).closed && c != x
            ==> exists|k: int| 0 <= k < open.len() && entry_cell(#[trigger] open[k]) == c
}

/// Dropping an entry of the open list keeps an entry for every other open
/// cell.
proof fn lemma_remove_entry(map: GameMap, nodes: Seq<Seq<Node>>, open: Seq<OpenEntry>, i: int)
    requires
        open_covers(map, nodes, open),
        entries_ok(map, nodes, open),
        0 <= i < open.len(),
    ensures
        open_covers_but(map, nodes, open.remove(i), entry_cell(open[i])),
        entries_ok(map, nodes, open.remove(i)),
{
    let rest = open.remove(i);
    reveal(open_covers);
    reveal(open_covers_but);
    reveal(entries_ok);
    assert forall|c: Cell|
        map.in_grid(c.0, c.1) && (#[trigger] nd(nodes, c)).discovered && !nd(nodes, c).closed && c
            != entry_cell(open[i]) implies exists|k: int| 0 <= k < rest.len() && entry_cell(#[trigger] rest[k]) == c by {
        let k = choose|k: int| 0 <= k < open.len() && entry_cell(#[trigger] open[k]) == c;
        if k < i {
            assert(rest[k] == open[k]);
        } else {
            assert(rest[k - 1] == open[k]);
        }
    }
    assert forall|k: int| 0 <= k < rest.len() implies map.in_grid(
        entry_cell(#[trigger] rest[k]).0,
        entry_cell(rest[k]).1,
    ) && nd(nodes, entry_cell(rest[k])).discovered by {
        if k < i {
            assert(rest[k] == open[k]);
        } else {
            assert(rest[k] == open[k + 1]);
        }
    }
}

/// Dropping the entry of a cell already closed keeps the search state.
proof fn lemma_drop_stale(map: GameMap, nodes: Seq<Seq<Node>>, open: Seq<OpenEntry>, s: Cell, g: Cell, i: int)
    requires
        search_ok(map, nodes, open, s, g),
        0 <= i < open.len(),
        nd(nodes, entry_cell(open[i])).closed,
    ensures
        search_ok(map, nodes, open.remove(i), s, g),
{
    lemma_remove_entry(map, nodes, open, i);
    reveal(open_covers);
    reveal(open_covers_but);
}

proof fn lemma_close(
    map: GameMap,
    nv0: Seq<Seq<Node>>,
    nv1: Seq<Seq<Node>>,
    open0: Seq<OpenEntry>,
    open1: Seq<OpenEntry>,
    s: Cell,
    g: Cell,
    cc: Cell,
    best: int,
)
    requires
        search_ok(map, nv0, open0, s, g),
        0 <= best < open0.len(),
        open1 == open0.remove(best),
        cc == entry_cell(open0[best]),
        map.in_grid(cc.0, cc.1),
        !nd(nv0, cc).closed,
        cc != g,
        nv1 == nv0.update(cc.1, nv0[cc.1].update(cc.0, Node { closed: true, ..nd(nv0, cc) })),
        count_closed(nv1) == count_closed(nv0) + 1,
    ensures
        expanding(map, nv1, open1, s, g, cc, 0),
{
    lemma_remove_entry(map, nv0, open0, best);
    lemma_nd_update(map, nv0, cc, Node { closed: true, ..nd(nv0, cc) });
    assert(nd(nv0, cc).discovered) by {
        reveal(entries_ok);
    }
    assert(tree_ok(map, nv1, s)) by {
        reveal(tree_ok);
        assert forall|c: Cell| map.in_grid(c.0, c.1) && (#[trigger] nd(nv1, c)).discovered implies {
            &&& passable(map, c)
            &&& nd(nv1, c).cost <= count_closed(nv1)
            &&& c != s ==> {
                &&& map.in_grid(parent_of(nv1, c).0, parent_of(nv1, c).1)
                &&& nd(nv1, parent_of(nv1, c)).closed
                &&& neighbours(c, parent_of(nv1, c))
                &&& nd(nv1, c).cost == nd(nv1, parent_of(nv1, c)).cost + 1
            }
        } by {
            assert(nd(nv0, c).discovered);
            if c != s {
                let p = parent_of(nv0, c);
                assert(parent_of(nv1, c) == p);
                assert(map.in_grid(p.0, p.1));
                assert(nd(nv1, p).closed);
            }
        }
    }
    assert(closed_discovered(map, nv1)) by {
        reveal(closed_discovered);
        assert forall|c: Cell| map.in_grid(c.0, c.1) && (#[trigger] nd(nv1, c)).closed implies nd(nv1, c).discovered by {
            if c != cc {
                assert(nd(nv0, c).closed);
            }
        }
    }
    assert(open_covers(map, nv1, open1)) by {
        reveal(open_covers);
        reveal(open_covers_but);
        assert forall|c: Cell|
            map.in_grid(c.0, c.1) && (#[trigger] nd(nv1, c)).discovered && !nd(nv1, c).closed
                implies exists|k: int| 0 <= k < open1.len() && entry_cell(#[trigger] open1[k]) == c by {
            assert(c != cc);
            assert(nd(nv0, c).discovered && !nd(nv0, c).closed);
        }
    }
    assert(entries_ok(map, nv1, open1)) by {
        reveal(entries_ok);
        assert forall|k: int| 0 <= k < open1.len() implies map.in_grid(
            entry_cell(#[trigger] open1[k]).0,
            entry_cell(open1[k]).1,
        ) && nd(nv1, entry_cell(open1[k])).discovered by {
            assert(nd(nv0, entry_cell(open1[k])).discovered);
        }
    }
    assert(frontier_ok(map, nv1, cc, 0)) by {
        reveal(frontier_ok);
        assert forall|c: Cell, n: Cell|
            map.in_grid(c.0, c.1) && (#[trigger] nd(nv1, c)).closed && neighbours(c, n) && #[trigger] passable(
                map,
                n,
            ) && (c != cc || dir_index(c, n) < 0) implies nd(nv1, n).discovered by {
            assert(c != cc);
            assert(nd(nv0, c).closed);
            assert(dir_index(c, n) < 9);
            assert(nd(nv0, n).discovered);
        }
    }
}

proof fn lemma_discover(
    map: GameMap,
    nv2: Seq<Seq<Node>>,
    nv3: Seq<Seq<Node>>,
    open2: Seq<OpenEntry>,
    open3: Seq<OpenEntry>,
    s: Cell,
    g: Cell,
    cc: Cell,
    k: int,
    nb: Cell,
    fresh: Node,
)
    requires
        expanding(map, nv2, open2, s, g, cc, k),
        0 <= k < 9,
        k != 4,
        nb == (cc.0 + k % 3 - 1, cc.1 + k / 3 - 1),
        map.in_grid(cc.0, cc.1),
        nd(nv2, cc).closed,
        passable(map, nb),
        !nd(nv2, nb).closed,
        fresh.parent_col as int == cc.0,
        fresh.parent_row as int == cc.1,
        fresh.discovered,
        !fresh.closed,
        fresh.cost == nd(nv2, cc).cost + 1,
        fresh.cost <= count_closed(nv2),
        !nd(nv2, nb).discovered || fresh.cost < nd(nv2, nb).cost,
        nv3 == nv2.update(nb.1, nv2[nb.1].update(nb.0, fresh)),
        count_closed(nv3) == count_closed(nv2),
        open3.len() == open2.len() + 1,
        forall|j: int| 0 <= j < open2.len() ==> open3[j] == open2[j],
        entry_cell(open3[open2.len() as int]) == nb,
    ensures
        expanding(map, nv3, open3, s, g, cc, k + 1),
{
    lemma_nd_update(map, nv2, nb, fresh);
    assert(neighbours(nb, cc));
    assert(dir_index(cc, nb) == k);
    assert(nb != s);
    assert(nb != cc);
    assert(tree_ok(map, nv3, s)) by {
        reveal(tree_ok);
        assert forall|c: Cell| map.in_grid(c.0, c.1) && (#[trigger] nd(nv3, c)).discovered implies {
            &&& passable(map, c)
            &&& nd(nv3, c).cost <= count_closed(nv3)
            &&& c != s ==> {
                &&& map.in_grid(parent_of(nv3, c).0, parent_of(nv3, c).1)
                &&& nd(nv3, parent_of(nv3, c)).closed
                &&& neighbours(c, parent_of(nv3, c))
                &&& nd(nv3, c).cost == nd(nv3, parent_of(nv3, c)).cost + 1
            }
        } by {
            if c == nb {
                assert(parent_of(nv3, c) == cc);
                assert(nd(nv3, cc) == nd(nv2, cc));
            } else {
                assert(nd(nv2, c).discovered);
                if c != s {
                    let p = parent_of(nv2, c);
                    assert(parent_of(nv3, c) == p);
                    assert(nd(nv2, p).closed);
                    assert(p != nb);
                    assert(nd(nv3, p) == nd(nv2, p));
                }
            }
        }
    }
    assert(closed_discovered(map, nv3)) by {
        reveal(closed_discovered);
        assert forall|c: Cell| map.in_grid(c.0, c.1) && (#[trigger] nd(nv3, c)).closed implies nd(nv3, c).discovered by {
            assert(nd(nv2, c).closed);
        }
    }
    assert(open_covers(map, nv3, open3)) by {
        reveal(open_covers);
        assert forall|c: Cell|
            map.in_grid(c.0, c.1) && (#[trigger] nd(nv3, c)).discovered && !nd(nv3, c).closed
                implies exists|j: int| 0 <= j < open3.len() && entry_cell(#[trigger] open3[j]) == c by {
            if c == nb {
                assert(entry_cell(open3[open2.len() as int]) == c);
            } else {
                assert(nd(nv2, c).discovered && !nd(nv2, c).closed);
                let j = choose|j: int| 0 <= j < open2.len() && entry_cell(#[trigger] open2[j]) == c;
                assert(open3[j] == open2[j]);
            }
        }
    }
    assert(entries_ok(map, nv3, open3)) by {
        reveal(entries_ok);
        assert forall|j: int| 0 <= j < open3.len() implies map.in_grid(
            entry_cell(#[trigger] open3[j]).0,
            entry_cell(open3[j]).1,
        ) && nd(nv3, entry_cell(open3[j])).discovered by {
            if j < open2.len() {
                assert(open3[j] == open2[j]);
                assert(nd(nv2, entry_cell(open2[j])).discovered);
            }
        }
    }
    assert(frontier_ok(map, nv3, cc, k + 1)) by {
        reveal(frontier_ok);
        assert forall|c: Cell, n: Cell|
            map.in_grid(c.0, c.1) && (#[trigger] nd(nv3, c)).closed && neighbours(c, n) && #[trigger] passable(
                map,
                n,
            ) && (c != cc || dir_index(c, n) < k + 1) implies nd(nv3, n).discovered by {
            assert(nd(nv2, c).closed);
            if n != nb {
                if c == cc && dir_index(c, n) == k {
                    assert(n == nb);
                }
                assert(nd(nv2, n).discovered);
            }
        }
    }
}

proof fn lemma_step_kept(
    map: GameMap,
    nv: Seq<Seq<Node>>,
    open: Seq<OpenEntry>,
    s: Cell,
    g: Cell,
    cc: Cell,
    k: int,
    nb: Cell,
)
    requires
        expanding(map, nv, open, s, g, cc, k),
        0 <= k < 9,
        nb == (cc.0 + k % 3 - 1, cc.1 + k / 3 - 1),
        k == 4 || !passable(map, nb) || nd(nv, nb).discovered || nd(nv, nb).closed,
    ensures
        expanding(map, nv, open, s, g, cc, k + 1),
{
    reveal(frontier_ok);
    reveal(closed_discovered);
    assert forall|c: Cell, n: Cell|
        map.in_grid(c.0, c.1) && (#[trigger] nd(nv, c)).closed && neighbours(c, n) && #[trigger] passable(map, n)
            && (c != cc || dir_index(c, n) < k + 1) implies nd(nv, n).discovered by {
        if c == cc && dir_index(c, n) == k {
            assert(n == nb);
        }
    }
}

proof fn lemma_expanded(map: GameMap, nv: Seq<Seq<Node>>, open: Seq<OpenEntry>, s: Cell, g: Cell, cc: Cell)
    requires
        expanding(map, nv, open, s, g, cc, 9),
    ensures
        search_ok(map, nv, open, s, g),
{
    reveal(frontier_ok);
    assert forall|c: Cell, n: Cell|
        map.in_grid(c.0, c.1) && (#[trigger] nd(nv, c)).closed && neighbours(c, n) && #[trigger] passable(map, n)
            && (c != s || dir_index(c, n) < 9) implies nd(nv, n).discovered by {
        assert(dir_index(c, n) < 9);
    }
}

/// With the open list empty, every discovered cell is closed.
proof fn lemma_all_closed(map: GameMap, nv: Seq<Seq<Node>>, open: Seq<OpenEntry>, s: Cell, g: Cell)
    requires
        search_ok(map, nv, open, s, g),
        open.len() == 0,
    ensures
        forall|c: Cell| map.in_grid(c.0, c.1) && (#[trigger] nd(nv, c)).discovered ==> nd(nv, c).closed,
{
    reveal(open_covers);
}

/// Follows the parents from the goal back to the start, and returns the
/// centres of the cells met, from start to goal.
fn trace_back(
    map: &GameMap,
    nodes: &Vec<Vec<Node>>,
    Ghost(open): Ghost<Seq<OpenEntry>>,
    Ghost(s): Ghost<Cell>,
    Ghost(g): Ghost<Cell>,
    sc: usize,
    sr: usize,
    gc: usize,
    gr: usize,
) -> (path: Vec<Vec2>)
    requires
        map.wf(),
        search_ok(*map, nodes_view(*nodes), open, s, g),
        nodes@.len() == map.rows(),
        s == (sc as int, sr as int),
        g == (gc as int, gr as int),
        nd(nodes_view(*nodes), g).discovered,
    ensures
        follows(*map, path@, s, g),
        is_walk(*map, path@.map_values(|p: Vec2| cell_of(*map, p))),
{
    let ghost nv = nodes_view(*nodes);
    let mut rev: Vec<Vec2> = Vec::new();
    let mut cc = gc;
    let mut cr = gr;
    rev.push(center_exec(map, cc, cr));
    let ghost mut cells: Seq<Cell> = seq![g];
    while !(cc == sc && cr == sr)
        invariant
            map.wf(),
            search_ok(*map, nv, open, s, g),
            nv == nodes_view(*nodes),
            nodes@.len() == map.rows(),
            s == (sc as int, sr as int),
            map.in_grid(cc as int, cr as int),
            nd(nv, (cc as int, cr as int)).discovered,
            rev@.len() == cells.len(),
            cells.len() >= 1,
            cells[0] == g,
            cells.last() == (cc as int, cr as int),
            forall|i: int| 0 <= i < cells.len() ==> passable(*map, #[trigger] cells[i]),
            forall|i: int| 0 <= i < cells.len() ==> #[trigger] rev@[i] == map.cell_center(cells[i].0, cells[i].1),
            forall|i: int| 0 <= i < cells.len() - 1 ==> neighbours(#[trigger] cells[i], cells[i + 1]),
            forall|i: int| 0 <= i < cells.len() ==> nd(nv, #[trigger] cells[i]).cost == nd(nv, g).cost - i,
        decreases nd(nv, (cc as int, cr as int)).cost,
    {
        let ghost here: Cell = (cc as int, cr as int);
        proof {
            reveal(tree_ok);
            reveal(closed_discovered);
        }
        assert(nv[cr as int].len() == map.cols());
        let node = nodes[cr][cc];
        assert(node == nd(nv, here));
        cc = node.parent_col;
        cr = node.parent_row;
        rev.push(center_exec(map, cc, cr));
        proof {
            let prev = cells;
            cells = cells.push((cc as int, cr as int));
            assert(cells[cells.len() - 2] == here);
            assert forall|i: int| 0 <= i < cells.len() - 1 implies neighbours(#[trigger] cells[i], cells[i + 1]) by {
                if i < cells.len() - 2 {
                    assert(cells[i] == prev[i] && cells[i + 1] == prev[i + 1]);
                }
            }
        }
    }
    let n = rev.len();
    let mut path: Vec<Vec2> = Vec::new();
    let mut i = n;
    while i > 0
        invariant
            n == rev@.len(),
            i <= n,
            path@.len() == n - i,
            forall|j: int| 0 <= j < n - i ==> #[trigger] path@[j] == rev@[n - 1 - j],
        decreases i,
    {
        i = i - 1;
        path.push(rev[i]);
    }
    proof {
        let walk = path@.map_values(|p: Vec2| cell_of(*map, p));
        assert forall|j: int| 0 <= j < n implies #[trigger] walk[j] == cells[n - 1 - j] by {
            assert(passable(*map, cells[n - 1 - j]));
            lemma_cell_of_center(map, cells[n - 1 - j].0, cells[n - 1 - j].1);
        }
        assert forall|j: int| 0 <= j < n - 1 implies neighbours(#[trigger] walk[j], walk[j + 1]) by {
            assert(neighbours(cells[n - 2 - j], cells[n - 2 - j + 1]));
        }
        assert forall|j: int| 0 <= j < n implies passable(*map, #[trigger] walk[j]) by {
            assert(passable(*map, cells[n - 1 - j]));
        }
        assert(is_walk(*map, walk));
        assert forall|j: int, k: int| #![trigger walk[j], walk[k]] 0 <= j < k < walk.len() implies walk[j] != walk[k] by {
            assert(nd(nv, cells[n - 1 - j]).cost == nd(nv, g).cost - (n - 1 - j));
            assert(nd(nv, cells[n - 1 - k]).cost == nd(nv, g).cost - (n - 1 - k));
        }
        assert(walk[0] == cells[n - 1]);
        assert(walk[n - 1] == cells[0]);
        assert forall|j: int| 0 <= j < path@.len() implies #[trigger] path@[j] == map.cell_center(
            cell_of(*map, path@[j]).0,
            cell_of(*map, path@[j]).1,
        ) by {
            assert(walk[j] == cell_of(*map, path@[j]));
        }
    }
    path
}

} // verus!
