//! Fixed-point plane geometry: positions, rotations and integer square roots.
//!
//! A position is held in thousandths of a world unit, and a rotation as its
//! cosine and sine scaled by `ROT_SCALE`, so that every step of the simulation
//! is exact integer arithmetic.
use vstd::prelude::*;

verus! {

/// Position units in one world unit.
pub const UNIT: i64 = 1000;

/// Scale of the cosine and sine held by a `Rotation`.
pub const ROT_SCALE: i64 = 1_000_000;

/// Bound on the coordinates that the movement functions accept.
pub const COORD_LIMIT: i64 = 1_000_000_000_000;

/// A point or a vector of the plane, in position units.
#[derive(Clone, Copy, Debug, PartialEq, Eq, Structural)]
pub struct Vec2 {
    pub x: i64,
    pub y: i64,
}

impl Vec2 {
    pub fn new(x: i64, y: i64) -> (r: Vec2)
        ensures
            r.x == x,
            r.y == y,
    {
        Vec2 { x, y }
    }

    pub open spec fn within(self, limit: int) -> bool {
        -limit <= self.x <= limit && -limit <= self.y <= limit
    }
}

/// Squared euclidean distance between two points.
pub open spec fn dist2(a: Vec2, b: Vec2) -> int {
    (a.x - b.x) * (a.x - b.x) + (a.y - b.y) * (a.y - b.y)
}

/// Computes `dist2(a, b)`.
pub fn distance_squared(a: Vec2, b: Vec2) -> (r: i128)
    requires
        a.within(2 * COORD_LIMIT),
        b.within(2 * COORD_LIMIT),
    ensures
        r == dist2(a, b),
{
    let dx = a.x as i128 - b.x as i128;
    let dy = a.y as i128 - b.y as i128;
    proof {
        lemma_product_bound(dx as int, dx as int, 4 * COORD_LIMIT, 4 * COORD_LIMIT);
        lemma_product_bound(dy as int, dy as int, 4 * COORD_LIMIT, 4 * COORD_LIMIT);
    }
    dx * dx + dy * dy
}

/// A rotation, given by its cosine and sine scaled by `ROT_SCALE`.
#[derive(Clone, Copy, Debug, PartialEq, Eq, Structural)]
pub struct Rotation {
    pub cos: i64,
    pub sin: i64,
}

impl Rotation {
    /// Cosine and sine in range, and `cos² + sin²` within `2 * ROT_SCALE` of
    /// `ROT_SCALE²`: what rounding both of a true rotation to integers leaves.
    pub open spec fn wf(self) -> bool {
        &&& -ROT_SCALE <= self.cos <= ROT_SCALE
        &&& -ROT_SCALE <= self.sin <= ROT_SCALE
        &&& -2 * ROT_SCALE <= self.norm_error() <= 2 * ROT_SCALE
    }

    pub open spec fn norm_error(self) -> int {
        self.cos * self.cos + self.sin * self.sin - ROT_SCALE * ROT_SCALE
    }

    /// The rotation by the opposite angle.
    pub open spec fn inverse(self) -> Rotation {
        Rotation { cos: self.cos, sin: (-self.sin) as i64 }
    }

    pub fn identity() -> (r: Rotation)
        ensures
            r == (Rotation { cos: ROT_SCALE, sin: 0 }),
            r.wf(),
    {
        Rotation { cos: ROT_SCALE, sin: 0 }
    }

    pub proof fn lemma_inverse_wf(self)
        requires
            self.wf(),
        ensures
            self.inverse().wf(),
            self.inverse().norm_error() == self.norm_error(),
    {
        let s = self.sin as int;
        assert((-s) * (-s) == s * s) by (nonlinear_arith);
    }

    pub fn invert(&self) -> (r: Rotation)
        requires
            self.wf(),
        ensures
            r == self.inverse(),
            r.wf(),
    {
        proof {
            self.lemma_inverse_wf();
        }
        Rotation { cos: self.cos, sin: -self.sin }
    }
}

/// Division that rounds toward zero, as integer division does at run time.
pub open spec fn trunc_div(a: int, b: int) -> int {
    if a >= 0 {
        a / b
    } else {
        -((-a) / b)
    }
}

/// The rotation of `(x, y)` by `r`, exact, at scale `ROT_SCALE`.
pub open spec fn rotated_x(x: int, y: int, r: Rotation) -> int {
    x * r.cos - y * r.sin
}

pub open spec fn rotated_y(x: int, y: int, r: Rotation) -> int {
    x * r.sin + y * r.cos
}

/// The rotation of `v` by `r`, each coordinate rounded toward zero.
pub open spec fn rotate_spec(v: Vec2, r: Rotation) -> Vec2 {
    Vec2 {
        x: trunc_div(rotated_x(v.x as int, v.y as int, r), ROT_SCALE as int) as i64,
        y: trunc_div(rotated_y(v.x as int, v.y as int, r), ROT_SCALE as int) as i64,
    }
}

pub proof fn lemma_product_bound(a: int, b: int, la: int, lb: int)
    requires
        -la <= a <= la,
        -lb <= b <= lb,
    ensures
        -(la * lb) <= a * b <= la * lb,
{
    assert(-(la * lb) <= a * b <= la * lb) by (nonlinear_arith)
        requires
            -la <= a <= la,
            -lb <= b <= lb,
    ;
}

proof fn lemma_rotated_bound(x: int, y: int, r: Rotation, limit: int)
    requires
        -limit <= x <= limit,
        -limit <= y <= limit,
        r.wf(),
    ensures
        -(limit * ROT_SCALE) <= x * r.cos <= limit * ROT_SCALE,
        -(limit * ROT_SCALE) <= x * r.sin <= limit * ROT_SCALE,
        -(limit * ROT_SCALE) <= y * r.cos <= limit * ROT_SCALE,
        -(limit * ROT_SCALE) <= y * r.sin <= limit * ROT_SCALE,
        -2 * (limit * ROT_SCALE) <= rotated_x(x, y, r) <= 2 * (limit * ROT_SCALE),
        -2 * (limit * ROT_SCALE) <= rotated_y(x, y, r) <= 2 * (limit * ROT_SCALE),
{
    lemma_product_bound(x, r.cos as int, limit, ROT_SCALE as int);
    lemma_product_bound(x, r.sin as int, limit, ROT_SCALE as int);
    lemma_product_bound(y, r.cos as int, limit, ROT_SCALE as int);
    lemma_product_bound(y, r.sin as int, limit, ROT_SCALE as int);
}

/// Rotates `v` by `r`, rounding each coordinate toward zero.
pub fn rotate_vec2(v: Vec2, r: Rotation) -> (out: Vec2)
    requires
        v.within(2 * COORD_LIMIT),
        r.wf(),
    ensures
        out == rotate_spec(v, r),
        out.within(4 * COORD_LIMIT),
        v.within(COORD_LIMIT as int) ==> out.within(2 * COORD_LIMIT),
{
    proof {
        lemma_rotated_bound(v.x as int, v.y as int, r, 2 * COORD_LIMIT);
        if v.within(COORD_LIMIT as int) {
            lemma_rotated_bound(v.x as int, v.y as int, r, COORD_LIMIT as int);
        }
    }
    let x = v.x as i128;
    let y = v.y as i128;
    let c = r.cos as i128;
    let s = r.sin as i128;
    let rx = x * c - y * s;
    let ry = x * s + y * c;
    let qx = rx / (ROT_SCALE as i128);
    let qy = ry / (ROT_SCALE as i128);
    Vec2 { x: qx as i64, y: qy as i64 }
}

/// Rounding toward zero leaves a remainder smaller than the divisor, of the
/// dividend's sign.
proof fn lemma_trunc_div_rem(a: int)
    ensures
        -ROT_SCALE < a - ROT_SCALE * trunc_div(a, ROT_SCALE as int) < ROT_SCALE,
        a >= 0 ==> 0 <= ROT_SCALE * trunc_div(a, ROT_SCALE as int) <= a,
        a <= 0 ==> a <= ROT_SCALE * trunc_div(a, ROT_SCALE as int) <= 0,
{
}

/// Turning a vector by a rotation and then by its inverse gives the vector
/// back, up to what rounding loses: each coordinate moves by less than
/// `3 + |coordinate| * |cos² + sin² - ROT_SCALE²| / ROT_SCALE²`.
pub proof fn lemma_rotate_inverse(v: Vec2, r: Rotation)
    requires
        v.within(COORD_LIMIT as int),
        r.wf(),
    ensures
        ({
            let w = rotate_spec(rotate_spec(v, r), r.inverse());
            let s2 = ROT_SCALE * ROT_SCALE;
            let e = if r.norm_error() >= 0 { r.norm_error() } else { -r.norm_error() };
            let ax = if v.x >= 0 { v.x as int } else { -v.x };
            let ay = if v.y >= 0 { v.y as int } else { -v.y };
            &&& -(3 * s2 + ax * e) <= s2 * (w.x - v.x) <= 3 * s2 + ax * e
            &&& -(3 * s2 + ay * e) <= s2 * (w.y - v.y) <= 3 * s2 + ay * e
        }),
{
    let s = ROT_SCALE as int;
    let c = r.cos as int;
    let sn = r.sin as int;
    let x = v.x as int;
    let y = v.y as int;
    lemma_rotated_bound(x, y, r, COORD_LIMIT as int);
    let p = rotated_x(x, y, r);
    let q = rotated_y(x, y, r);
    lemma_trunc_div_rem(p);
    lemma_trunc_div_rem(q);
    let t1 = trunc_div(p, s);
    let t2 = trunc_div(q, s);
    let r1 = p - s * t1;
    let r2 = q - s * t2;
    let u = rotate_spec(v, r);
    assert(u.x == t1 && u.y == t2);
    let inv = r.inverse();
    assert(inv.cos == c && inv.sin == -sn);
    let a = rotated_x(t1, t2, inv);
    let b = rotated_y(t1, t2, inv);
    assert(a == t1 * c + t2 * sn) by (nonlinear_arith)
        requires
            a == t1 * c - t2 * (-sn),
    ;
    r.lemma_inverse_wf();
    assert(b == -(t1 * sn) + t2 * c) by (nonlinear_arith)
        requires
            b == t1 * (-sn) + t2 * c,
    ;
    lemma_rotated_bound(t1, t2, inv, 2 * COORD_LIMIT);
    lemma_trunc_div_rem(a);
    lemma_trunc_div_rem(b);
    let w = rotate_spec(u, inv);
    assert(w.x == trunc_div(a, s) && w.y == trunc_div(b, s));
    let r3 = a - s * w.x;
    let r4 = b - s * w.y;
    // s * a == x * (c² + sn²) - r1 * c - r2 * sn
    assert(s * a == (s * t1) * c + (s * t2) * sn) by (nonlinear_arith)
        requires
            a == t1 * c + t2 * sn,
    ;
    assert((s * t1) * c == p * c - r1 * c) by (nonlinear_arith)
        requires
            s * t1 == p - r1,
    ;
    assert((s * t2) * sn == q * sn - r2 * sn) by (nonlinear_arith)
        requires
            s * t2 == q - r2,
    ;
    assert(p * c + q * sn == x * (c * c + sn * sn)) by (nonlinear_arith)
        requires
            p == x * c - y * sn,
            q == x * sn + y * c,
    ;
    // s * b == y * (c² + sn²) + r1 * sn - r2 * c
    assert(s * b == -((s * t1) * sn) + (s * t2) * c) by (nonlinear_arith)
        requires
            b == -(t1 * sn) + t2 * c,
    ;
    assert((s * t1) * sn == p * sn - r1 * sn) by (nonlinear_arith)
        requires
            s * t1 == p - r1,
    ;
    assert((s * t2) * c == q * c - r2 * c) by (nonlinear_arith)
        requires
            s * t2 == q - r2,
    ;
    assert(-(p * sn) + q * c == y * (c * c + sn * sn)) by (nonlinear_arith)
        requires
            p == x * c - y * sn,
            q == x * sn + y * c,
    ;
    let e = r.norm_error();
    assert(c * c + sn * sn == s * s + e);
    assert(x * (c * c + sn * sn) == x * (s * s) + x * e) by (nonlinear_arith)
        requires
            c * c + sn * sn == s * s + e,
    ;
    assert(y * (c * c + sn * sn) == y * (s * s) + y * e) by (nonlinear_arith)
        requires
            c * c + sn * sn == s * s + e,
    ;
    assert(s * (s * w.x) == s * a - s * r3) by (nonlinear_arith)
        requires
            r3 == a - s * w.x,
    ;
    assert(s * (s * w.y) == s * b - s * r4) by (nonlinear_arith)
        requires
            r4 == b - s * w.y,
    ;
    assert(s * (s * w.x) - x * (s * s) == (s * s) * (w.x - x)) by (nonlinear_arith);
    assert(s * (s * w.y) - y * (s * s) == (s * s) * (w.y - y)) by (nonlinear_arith);
    lemma_product_bound(r1, c, s - 1, s);
    lemma_product_bound(r2, sn, s - 1, s);
    lemma_product_bound(r1, sn, s - 1, s);
    lemma_product_bound(r2, c, s - 1, s);
    lemma_product_bound(r3, s, s - 1, s);
    lemma_product_bound(r4, s, s - 1, s);
    let ae = if e >= 0 { e } else { -e };
    let ax = if x >= 0 { x } else { -x };
    let ay = if y >= 0 { y } else { -y };
    lemma_product_bound(x, e, ax, ae);
    lemma_product_bound(y, e, ay, ae);
    assert(ax * ae == ae * ax) by (nonlinear_arith);
    assert(ay * ae == ae * ay) by (nonlinear_arith);
}

/// `r` is the integer square root of `n`.
pub open spec fn is_isqrt(n: int, r: int) -> bool {
    0 <= r && r * r <= n < (r + 1) * (r + 1)
}

/// Bound on the arguments of `isqrt`.
pub const ISQRT_LIMIT: u128 = 9_000_000_000_000_000_000_000_000_000_000_000_000;

/// The integer square root, by bisection.
pub fn isqrt(n: u128) -> (r: u128)
    requires
        n <= ISQRT_LIMIT,
    ensures
        is_isqrt(n as int, r as int),
        r <= 3_000_000_000_000_000_000,
{
    let mut lo: u128 = 0;
    let mut hi: u128 = 3_000_000_000_000_000_001;
    assert(hi * hi > ISQRT_LIMIT) by (nonlinear_arith)
        requires
            hi == 3_000_000_000_000_000_001u128,
    ;
    while hi - lo > 1
        invariant
            lo < hi <= 3_000_000_000_000_000_001,
            lo * lo <= n,
            n < hi * hi,
        decreases hi - lo,
    {
        let mid = lo + (hi - lo) / 2;
        assert(mid * mid <= 3_000_000_000_000_000_001u128 * 3_000_000_000_000_000_001u128) by (nonlinear_arith)
            requires
                mid <= 3_000_000_000_000_000_001u128,
        ;
        if mid * mid <= n {
            lo = mid;
        } else {
            hi = mid;
        }
    }
    assert(lo + 1 == hi);
    lo
}

} // verus!
