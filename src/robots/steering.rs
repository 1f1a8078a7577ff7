//! One tick of movement toward a target, turning aside from obstacles.
use vstd::prelude::*;
use crate::robots::geometry::{
    is_isqrt, isqrt, rotated_x, rotated_y, trunc_div, Rotation, Vec2, COORD_LIMIT, ROT_SCALE,
};
use crate::robots::grid::{is_position_blocked, lemma_in_grid_bounded, GameMap};

verus! {

/// Bound on the distance that one tick may cover, in position units.
pub const STEP_LIMIT: i64 = 1_000_000_000;

/// Number of fallback directions tried when the straight move is blocked.
pub const FALLBACK_COUNT: usize = 12;

/// The fallback turns by angle: 0.3, 0.6, 1.0, 1.5, 2.0 and 2.5 radians.
pub open spec fn base_turn(j: int) -> Rotation {
    if j == 1 {
        Rotation { cos: 955336, sin: 295520 }
    } else if j == 2 {
        Rotation { cos: 825336, sin: 564642 }
    } else if j == 3 {
        Rotation { cos: 540302, sin: 841471 }
    } else if j == 4 {
        Rotation { cos: 70737, sin: 997495 }
    } else if j == 5 {
        Rotation { cos: -416147int as i64, sin: 909297 }
    } else {
        Rotation { cos: -801144int as i64, sin: 598472 }
    }
}

/// The `k`-th direction tried: straight ahead for 0, then the fallback
/// angles by growing deviation, each to the left and then to the right.
pub open spec fn turn(k: int) -> Rotation {
    if k == 0 {
        Rotation { cos: ROT_SCALE, sin: 0 }
    } else if k % 2 == 1 {
        base_turn((k + 1) / 2)
    } else {
        base_turn(k / 2).inverse()
    }
}

fn turn_exec(k: usize) -> (r: Rotation)
    requires
        k <= FALLBACK_COUNT,
    ensures
        r == turn(k as int),
        r.wf(),
{
    let j = (k + 1) / 2;
    let b = if j == 1 {
        Rotation { cos: 955336, sin: 295520 }
    } else if j == 2 {
        Rotation { cos: 825336, sin: 564642 }
    } else if j == 3 {
        Rotation { cos: 540302, sin: 841471 }
    } else if j == 4 {
        Rotation { cos: 70737, sin: 997495 }
    } else if j == 5 {
        Rotation { cos: -416147, sin: 909297 }
    } else {
        Rotation { cos: -801144, sin: 598472 }
    };
    assert(b.wf()) by (nonlinear_arith)
        requires
            b == base_turn(j as int),
            1 <= j <= 6 || b == base_turn(6),
    ;
    if k == 0 {
        Rotation::identity()
    } else if k % 2 == 1 {
        b
    } else {
        assert(j == k / 2);
        b.invert()
    }
}

/// The integer square root, as a function.
pub open spec fn sqrt_floor(n: int) -> int {
    choose|r: int| is_isqrt(n, r)
}

proof fn lemma_isqrt_unique(n: int, r: int)
    requires
        is_isqrt(n, r),
    ensures
        sqrt_floor(n) == r,
{
    let q = sqrt_floor(n);
    assert(is_isqrt(n, q));
    if q < r {
        assert((q + 1) * (q + 1) <= r * r) by (nonlinear_arith)
            requires
                0 <= q < r,
        ;
    } else if r < q {
        assert((r + 1) * (r + 1) <= q * q) by (nonlinear_arith)
            requires
                0 <= r < q,
        ;
    }
}

/// The direction from `cur` to `target` turned by `turn(k)`, at scale
/// `ROT_SCALE`: the heading reported for a move in that direction.
pub open spec fn heading_for(cur: Vec2, target: Vec2, k: int) -> Vec2 {
    let dx = target.x - cur.x;
    let dy = target.y - cur.y;
    Vec2 { x: rotated_x(dx, dy, turn(k)) as i64, y: rotated_y(dx, dy, turn(k)) as i64 }
}

/// The point reached by covering `step` along `heading_for(cur, target, k)`:
/// the heading divided by its integer length, times `step`, each coordinate
/// rounded toward zero.
pub open spec fn candidate(cur: Vec2, target: Vec2, step: int, k: int) -> Vec2 {
    let h = heading_for(cur, target, k);
    let len = sqrt_floor(h.x * h.x + h.y * h.y);
    Vec2 { x: (cur.x + trunc_div(h.x * step, len)) as i64, y: (cur.y + trunc_div(h.y * step, len)) as i64 }
}

/// The move `(mx, my)` is `step` long up to rounding: its length lies
/// between `step - 2` (from `step² - 4 step`) and
/// `step + step / 500_000 + 1`.
pub open spec fn step_close(mx: int, my: int, step: int) -> bool {
    &&& step * step - 4 * step <= mx * mx + my * my
    &&& mx * mx + my * my <= (step + step / 500_000 + 1) * (step + step / 500_000 + 1)
}

/// What dividing by `len` toward zero does to one coordinate, squared.
proof fn lemma_trunc_square(h: int, step: int, len: int, m: int)
    requires
        len >= 1,
        step >= 0,
        -len <= h <= len,
        m == trunc_div(h * step, len),
    ensures
        (len * m) * (len * m) <= (h * step) * (h * step),
        (len * m) * (len * m) >= (h * step) * (h * step) - 2 * len * (step * (if h >= 0 { h } else { -h })),
{
    let a = h * step;
    let aa = if h >= 0 { h } else { -h };
    assert(step * aa == (if a >= 0 { a } else { -a })) by (nonlinear_arith)
        requires
            a == h * step,
            aa == (if h >= 0 { h } else { -h }),
            step >= 0,
    ;
    let abs_a = if a >= 0 { a } else { -a };
    let t = len * m;
    let q = abs_a / len;
    let rm = abs_a % len;
    vstd::arithmetic::div_mod::lemma_fundamental_div_mod(abs_a, len);
    vstd::arithmetic::div_mod::lemma_mod_pos_bound(abs_a, len);
    assert(abs_a == len * q + rm);
    assert(t == len * q || t == -(len * q)) by (nonlinear_arith)
        requires
            m == (if a >= 0 { q } else { -q }),
            t == len * m,
    ;
    assert(len * q >= 0) by (nonlinear_arith)
        requires
            abs_a == len * q + rm,
            0 <= rm < len,
            abs_a >= 0,
            len > 0,
    ;
    let abs_t = if t >= 0 { t } else { -t };
    assert(abs_t == len * q);
    assert(abs_t <= abs_a && abs_a - abs_t < len);
    assert(t * t == abs_t * abs_t) by (nonlinear_arith)
        requires
            abs_t == (if t >= 0 { t } else { -t }),
    ;
    assert(a * a == abs_a * abs_a) by (nonlinear_arith)
        requires
            abs_a == (if a >= 0 { a } else { -a }),
    ;
    assert(abs_t * abs_t <= abs_a * abs_a) by (nonlinear_arith)
        requires
            0 <= abs_t <= abs_a,
    ;
    assert(abs_t * abs_t >= abs_a * abs_a - 2 * len * abs_a) by (nonlinear_arith)
        requires
            0 <= abs_t <= abs_a,
            abs_a - abs_t < len,
            len >= 1,
    ;
}

/// Dividing a heading by its integer length and scaling by `step` gives a
/// move `step` long, up to rounding.
proof fn lemma_step_close(hx: int, hy: int, step: int, len: int, mx: int, my: int)
    requires
        len >= 500_000,
        step >= 0,
        len * len <= hx * hx + hy * hy < (len + 1) * (len + 1),
        mx == trunc_div(hx * step, len),
        my == trunc_div(hy * step, len),
    ensures
        step_close(mx, my, step),
{
    let hh = hx * hx + hy * hy;
    assert(-len <= hx <= len && -len <= hy <= len) by (nonlinear_arith)
        requires
            len >= 0,
            hx * hx + hy * hy < (len + 1) * (len + 1),
    ;
    lemma_trunc_square(hx, step, len, mx);
    lemma_trunc_square(hy, step, len, my);
    let ax = if hx >= 0 { hx } else { -hx };
    let ay = if hy >= 0 { hy } else { -hy };
    let m2 = mx * mx + my * my;
    assert((len * mx) * (len * mx) + (len * my) * (len * my) == (len * len) * m2) by (nonlinear_arith)
        requires
            m2 == mx * mx + my * my,
    ;
    assert((hx * step) * (hx * step) + (hy * step) * (hy * step) == (step * step) * hh) by (nonlinear_arith)
        requires
            hh == hx * hx + hy * hy,
    ;
    // Lower bound.
    assert(2 * len * (step * ax) + 2 * len * (step * ay) <= 4 * step * (len * len)) by (nonlinear_arith)
        requires
            0 <= ax <= len,
            0 <= ay <= len,
            step >= 0,
            len >= 0,
    ;
    assert((step * step) * hh >= (step * step) * (len * len)) by (nonlinear_arith)
        requires
            hh >= len * len,
    ;
    assert((len * len) * m2 >= (len * len) * (step * step - 4 * step)) by (nonlinear_arith)
        requires
            (len * len) * m2 >= (step * step) * hh - 2 * len * (step * ax) - 2 * len * (step * ay),
            (step * step) * hh >= (step * step) * (len * len),
            2 * len * (step * ax) + 2 * len * (step * ay) <= 4 * step * (len * len),
    ;
    assert(m2 >= step * step - 4 * step) by (nonlinear_arith)
        requires
            (len * len) * m2 >= (len * len) * (step * step - 4 * step),
            len >= 1,
    ;
    // Upper bound.
    let q = step / 500_000 + 1;
    assert(step <= len * q) by (nonlinear_arith)
        requires
            len >= 500_000,
            q == step / 500_000 + 1,
            step >= 0,
    ;
    assert(step * (len + 1) <= len * (step + q)) by (nonlinear_arith)
        requires
            step <= len * q,
    ;
    assert((step * (len + 1)) * (step * (len + 1)) <= (len * (step + q)) * (len * (step + q))) by (nonlinear_arith)
        requires
            0 <= step * (len + 1) <= len * (step + q),
    ;
    assert((step * step) * hh <= (step * (len + 1)) * (step * (len + 1))) by (nonlinear_arith)
        requires
            hh < (len + 1) * (len + 1),
            step >= 0,
    ;
    let big = (step + q) * (step + q);
    assert((len * (step + q)) * (len * (step + q)) == (len * len) * big) by (nonlinear_arith)
        requires
            big == (step + q) * (step + q),
    ;
    assert((len * len) * m2 <= (len * len) * big);
    assert(m2 <= big) by (nonlinear_arith)
        requires
            (len * len) * m2 <= (len * len) * big,
            len >= 1,
    ;
}

/// The first of the directions `k, k + 1, ...` whose candidate is free; when
/// none is, the agent stays and faces the target.
pub open spec fn steer_from(map: GameMap, cur: Vec2, target: Vec2, step: int, k: int) -> (Vec2, Vec2)
    decreases FALLBACK_COUNT + 1 - k,
{
    if k > FALLBACK_COUNT {
        (cur, heading_for(cur, target, 0))
    } else if !map.is_blocked(candidate(cur, target, step, k)) {
        (candidate(cur, target, step, k), heading_for(cur, target, k))
    } else {
        steer_from(map, cur, target, step, k + 1)
    }
}

/// The new position and heading of an agent at `cur` heading for `target`.
/// An agent on its target stays, with a zero heading.
pub open spec fn steer(map: GameMap, cur: Vec2, target: Vec2, step: int) -> (Vec2, Vec2) {
    if cur == target {
        (cur, Vec2 { x: 0, y: 0 })
    } else {
        steer_from(map, cur, target, step, 0)
    }
}

proof fn lemma_trunc_bound(a: int, b: int, m: int)
    requires
        b > 0,
        m >= 0,
        -(m * b) <= a <= m * b,
    ensures
        -m <= trunc_div(a, b) <= m,
{
    if a >= 0 {
        let q = a / b;
        assert(q * b <= a) by (nonlinear_arith)
            requires
                b > 0,
                a >= 0,
                q == a / b,
        ;
        assert(q <= m) by (nonlinear_arith)
            requires
                b > 0,
                q * b <= m * b,
        ;
        assert(q >= 0) by (nonlinear_arith)
            requires
                b > 0,
                a >= 0,
                q == a / b,
        ;
    } else {
        let q = (-a) / b;
        assert(q * b <= -a) by (nonlinear_arith)
            requires
                b > 0,
                -a >= 0,
                q == (-a) / b,
        ;
        assert(q <= m) by (nonlinear_arith)
            requires
                b > 0,
                q * b <= m * b,
        ;
        assert(q >= 0) by (nonlinear_arith)
            requires
                b > 0,
                -a >= 0,
                q == (-a) / b,
        ;
    }
}

/// Turning a vector by `(c, sn)` scales its squared length by `c² + sn²`.
proof fn lemma_turned_norm(dx: int, dy: int, c: int, sn: int, hx: int, hy: int)
    requires
        hx == dx * c - dy * sn,
        hy == dx * sn + dy * c,
    ensures
        hx * hx + hy * hy == (dx * dx + dy * dy) * (c * c + sn * sn),
{
    let a = dx * c;
    let b = dy * sn;
    let e = dx * sn;
    let f = dy * c;
    assert(hx * hx == a * a - 2 * (a * b) + b * b) by (nonlinear_arith)
        requires
            hx == a - b,
    ;
    assert(hy * hy == e * e + 2 * (e * f) + f * f) by (nonlinear_arith)
        requires
            hy == e + f,
    ;
    assert(a * b == e * f) by (nonlinear_arith)
        requires
            a == dx * c,
            b == dy * sn,
            e == dx * sn,
            f == dy * c,
    ;
    assert(a * a + e * e == (dx * dx) * (c * c + sn * sn)) by (nonlinear_arith)
        requires
            a == dx * c,
            e == dx * sn,
    ;
    assert(b * b + f * f == (dy * dy) * (c * c + sn * sn)) by (nonlinear_arith)
        requires
            b == dy * sn,
            f == dy * c,
    ;
    assert((dx * dx) * (c * c + sn * sn) + (dy * dy) * (c * c + sn * sn) == (dx * dx + dy * dy) * (c
        * c + sn * sn)) by (nonlinear_arith);
}

/// Computes `candidate(cur, target, step, k)`.
fn candidate_exec(cur: Vec2, target: Vec2, step: i64, k: usize) -> (r: Vec2)
    requires
        cur.within(COORD_LIMIT as int),
        target.within(COORD_LIMIT as int),
        cur != target,
        0 <= step <= STEP_LIMIT,
        k <= FALLBACK_COUNT,
    ensures
        r == candidate(cur, target, step as int, k as int),
        r.within(COORD_LIMIT + STEP_LIMIT),
        step_close(r.x - cur.x, r.y - cur.y, step as int),
{
    let rot = turn_exec(k);
    let h = heading_exec(cur, target, rot);
    let dx = target.x as i128 - cur.x as i128;
    let dy = target.y as i128 - cur.y as i128;
    let hx = h.x as i128;
    let hy = h.y as i128;
    proof {
        let c = rot.cos as int;
        let sn = rot.sin as int;
        let n = dx * dx + dy * dy;
        crate::robots::geometry::lemma_product_bound(dx as int, dx as int, 2 * COORD_LIMIT, 2 * COORD_LIMIT);
        crate::robots::geometry::lemma_product_bound(dy as int, dy as int, 2 * COORD_LIMIT, 2 * COORD_LIMIT);
        lemma_turned_norm(dx as int, dy as int, c, sn, hx as int, hy as int);
        assert(1 <= n <= 8_000_000_000_000_000_000_000_000) by (nonlinear_arith)
            requires
                n == dx * dx + dy * dy,
                dx != 0 || dy != 0,
                dx * dx <= 4_000_000_000_000_000_000_000_000,
                dy * dy <= 4_000_000_000_000_000_000_000_000,
        ;
        assert(999_998_000_000 <= c * c + sn * sn <= 1_000_002_000_000);
        assert(999_998_000_000 <= n * (c * c + sn * sn) <= 8_000_016_000_000_000_000_000_000_000_000_000_000) by (nonlinear_arith)
            requires
                1 <= n <= 8_000_000_000_000_000_000_000_000,
                999_998_000_000 <= c * c + sn * sn <= 1_000_002_000_000,
        ;
        assert(hx * hx >= 0 && hy * hy >= 0) by (nonlinear_arith);
        assert(hx * hx <= hx * hx + hy * hy && hy * hy <= hx * hx + hy * hy);
    }
    let hh = hx * hx + hy * hy;
    let len = isqrt(hh as u128) as i128;
    proof {
        lemma_isqrt_unique(hh as int, len as int);
        let l = len as int;
        assert(l >= 999_998) by (nonlinear_arith)
            requires
                l >= 0,
                999_998_000_000 <= hh,
                hh < (l + 1) * (l + 1),
        ;
        assert(-l <= hx <= l && -l <= hy <= l) by (nonlinear_arith)
            requires
                l >= 0,
                hx * hx + hy * hy < (l + 1) * (l + 1),
        ;
        crate::robots::geometry::lemma_product_bound(hx as int, step as int, l, step as int);
        crate::robots::geometry::lemma_product_bound(hy as int, step as int, l, step as int);
        crate::robots::geometry::lemma_product_bound(hx as int, step as int, 4_000_000_000_000_000_000, STEP_LIMIT as int);
        crate::robots::geometry::lemma_product_bound(hy as int, step as int, 4_000_000_000_000_000_000, STEP_LIMIT as int);
        assert(step * l == l * step) by (nonlinear_arith);
        lemma_trunc_bound(hx * step, l, step as int);
        lemma_trunc_bound(hy * step, l, step as int);
    }
    let mx = (hx * (step as i128)) / len;
    let my = (hy * (step as i128)) / len;
    proof {
        lemma_step_close(hx as int, hy as int, step as int, len as int, mx as int, my as int);
    }
    Vec2 { x: (cur.x as i128 + mx) as i64, y: (cur.y as i128 + my) as i64 }
}

/// Moves an agent one tick from `current_pos` toward `target_pos` at `speed`
/// world units per second for `delta_ms` milliseconds. The straight move is
/// taken when free; else the first free fallback direction; else the agent
/// stays, facing the target. Returns the new position and the heading, a
/// vector along the direction faced.
pub fn move_entity_avoiding_obstacles(
    current_pos: Vec2,
    target_pos: Vec2,
    speed: i64,
    delta_ms: i64,
    game_map: &GameMap,
) -> (r: (Vec2, Vec2))
    requires
        game_map.wf(),
        current_pos.within(COORD_LIMIT as int),
        target_pos.within(COORD_LIMIT as int),
        0 <= speed,
        0 <= delta_ms,
        speed * delta_ms <= STEP_LIMIT,
    ensures
        r == steer(*game_map, current_pos, target_pos, speed * delta_ms),
        current_pos != target_pos && !game_map.is_blocked(
            candidate(current_pos, target_pos, speed * delta_ms, 0),
        ) ==> r.0 == candidate(current_pos, target_pos, speed * delta_ms, 0),
        r.0 == current_pos || game_map.position_in_grid(r.0),
        r.0.within(COORD_LIMIT as int),
        r.0 != current_pos ==> step_close(r.0.x - current_pos.x, r.0.y - current_pos.y, speed * delta_ms),
        r.0 != current_pos ==> exists|k: int|
            0 <= k <= FALLBACK_COUNT && r.0 == candidate(current_pos, target_pos, speed * delta_ms, k)
                && #[trigger] heading_for(current_pos, target_pos, k) == r.1,
{
    if current_pos == target_pos {
        return (current_pos, Vec2 { x: 0, y: 0 });
    }
    let step = speed * delta_ms;
    let mut k: usize = 0;
    while k <= FALLBACK_COUNT
        invariant
            game_map.wf(),
            current_pos.within(COORD_LIMIT as int),
            target_pos.within(COORD_LIMIT as int),
            current_pos != target_pos,
            0 <= step <= STEP_LIMIT,
            step == speed * delta_ms,
            k <= FALLBACK_COUNT + 1,
            steer(*game_map, current_pos, target_pos, step as int) == steer_from(
                *game_map,
                current_pos,
                target_pos,
                step as int,
                k as int,
            ),
        decreases FALLBACK_COUNT + 1 - k,
    {
        let cand = candidate_exec(current_pos, target_pos, step, k);
        if !is_position_blocked(cand, game_map) {
            proof {
                lemma_in_grid_bounded(game_map, cand);
            }
            let rot = turn_exec(k);
            let heading = heading_exec(current_pos, target_pos, rot);
            proof {
                crate::robots::geometry::lemma_product_bound(
                    (target_pos.x - current_pos.x) as int, rot.cos as int, 2 * COORD_LIMIT, ROT_SCALE as int);
                crate::robots::geometry::lemma_product_bound(
                    (target_pos.y - current_pos.y) as int, rot.sin as int, 2 * COORD_LIMIT, ROT_SCALE as int);
                crate::robots::geometry::lemma_product_bound(
                    (target_pos.x - current_pos.x) as int, rot.sin as int, 2 * COORD_LIMIT, ROT_SCALE as int);
                crate::robots::geometry::lemma_product_bound(
                    (target_pos.y - current_pos.y) as int, rot.cos as int, 2 * COORD_LIMIT, ROT_SCALE as int);
                assert(heading == heading_for(current_pos, target_pos, k as int));
            }
            return (cand, heading);
        }
        k = k + 1;
    }
    let heading = heading_exec(current_pos, target_pos, Rotation::identity());
    (current_pos, heading)
}

fn heading_exec(cur: Vec2, target: Vec2, rot: Rotation) -> (h: Vec2)
    requires
        cur.within(COORD_LIMIT as int),
        target.within(COORD_LIMIT as int),
        rot.wf(),
    ensures
        h.x == rotated_x(target.x - cur.x, target.y - cur.y, rot),
        h.y == rotated_y(target.x - cur.x, target.y - cur.y, rot),
{
    let dx = target.x - cur.x;
    let dy = target.y - cur.y;
    proof {
        crate::robots::geometry::lemma_product_bound(dx as int, rot.cos as int, 2 * COORD_LIMIT, ROT_SCALE as int);
        crate::robots::geometry::lemma_product_bound(dx as int, rot.sin as int, 2 * COORD_LIMIT, ROT_SCALE as int);
        crate::robots::geometry::lemma_product_bound(dy as int, rot.cos as int, 2 * COORD_LIMIT, ROT_SCALE as int);
        crate::robots::geometry::lemma_product_bound(dy as int, rot.sin as int, 2 * COORD_LIMIT, ROT_SCALE as int);
    }
    Vec2 { x: dx * rot.cos - dy * rot.sin, y: dx * rot.sin + dy * rot.cos }
}

/// Waypoints closer than this are reached.
pub const WAYPOINT_RADIUS: i64 = 15_000;

pub open spec fn reached(p: Vec2, w: Vec2) -> bool {
    crate::robots::geometry::dist2(p, w) < WAYPOINT_RADIUS * WAYPOINT_RADIUS
}

/// The index of the first waypoint from `k` on that `cur` has not reached,
/// or the path's length when it has reached them all.
pub open spec fn next_waypoint(path: Seq<Vec2>, cur: Vec2, k: int) -> int
    decreases path.len() - k,
{
    if k >= path.len() {
        path.len() as int
    } else if reached(cur, path[k]) {
        next_waypoint(path, cur, k + 1)
    } else {
        k
    }
}

/// One tick along a committed route: the waypoints from `next` on that the
/// agent has reached are passed, and it steers toward the first one left.
/// Returns the new position, the heading and the index of that waypoint;
/// at the end of the route the agent stays, with a zero heading.
pub fn follow_path(
    current_pos: Vec2,
    path: &Vec<Vec2>,
    next: usize,
    speed: i64,
    delta_ms: i64,
    game_map: &GameMap,
) -> (r: (Vec2, Vec2, usize))
    requires
        game_map.wf(),
        current_pos.within(COORD_LIMIT as int),
        forall|i: int| 0 <= i < path@.len() ==> (#[trigger] path@[i]).within(COORD_LIMIT as int),
        next <= path@.len(),
        0 <= speed,
        0 <= delta_ms,
        speed * delta_ms <= STEP_LIMIT,
    ensures
        r.2 == next_waypoint(path@, current_pos, next as int),
        r.2 == path@.len() ==> r.0 == current_pos && r.1 == (Vec2 { x: 0, y: 0 }),
        r.2 < path@.len() ==> (r.0, r.1) == steer(*game_map, current_pos, path@[r.2 as int], speed * delta_ms),
{
    let mut k = next;
    while k < path.len()
        invariant
            next <= k <= path@.len(),
            current_pos.within(COORD_LIMIT as int),
            forall|i: int| 0 <= i < path@.len() ==> (#[trigger] path@[i]).within(COORD_LIMIT as int),
            next_waypoint(path@, current_pos, next as int) == next_waypoint(path@, current_pos, k as int),
        ensures
            next <= k <= path@.len(),
            next_waypoint(path@, current_pos, next as int) == next_waypoint(path@, current_pos, k as int),
            k == path@.len() || !reached(current_pos, path@[k as int]),
        decreases path@.len() - k,
    {
        let d = crate::robots::geometry::distance_squared(current_pos, path[k]);
        let radius = WAYPOINT_RADIUS as i128;
        if d >= radius * radius {
            break;
        }
        k = k + 1;
    }
    if k == path.len() {
        (current_pos, Vec2 { x: 0, y: 0 }, k)
    } else {
        let (p, h) = move_entity_avoiding_obstacles(current_pos, path[k], speed, delta_ms, game_map);
        (p, h, k)
    }
}

} // verus!
