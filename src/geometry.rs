//! Integer plane geometry: points, vectors and axis-aligned rectangles.
//!
//! Coordinates are whole world (or screen) units. Everything the diagram
//! stores lies inside the square `[-WORLD_LIMIT, WORLD_LIMIT]²`, so that every
//! squared distance and dot product of world points fits in an `i128`.
use vstd::prelude::*;

verus! {

/// Half the width of the square world extent: every stored coordinate lies in
/// `[-WORLD_LIMIT, WORLD_LIMIT]`.
pub const WORLD_LIMIT: i64 = 16_777_216;

/// Largest span between two world coordinates, the bound on world vectors.
pub const WORLD_SPAN: i64 = 33_554_432;

/// Rounded quotient `a / b` for `b > 0`, halves rounding up.
pub open spec fn round_div(a: int, b: int) -> int {
    (2 * a + b) / (2 * b)
}

pub open spec fn clamp(v: int, lo: int, hi: int) -> int {
    if v < lo {
        lo
    } else if v > hi {
        hi
    } else {
        v
    }
}

pub open spec fn in_world(v: int) -> bool {
    -WORLD_LIMIT <= v <= WORLD_LIMIT
}

pub open spec fn in_span(v: int) -> bool {
    -WORLD_SPAN <= v <= WORLD_SPAN
}

/// Floor division on `i128` for a positive divisor.
pub fn floor_div(n: i128, d: i128) -> (q: i128)
    requires
        0 < d <= 0x1_0000_0000_0000_0000,
        -0x1000_0000_0000_0000_0000_0000_0000 <= n <= 0x1000_0000_0000_0000_0000_0000_0000,
    ensures
        q == n / d,
{
    if n >= 0 {
        n / d
    } else {
        let q = (-n + d - 1) / d;
        proof {
            let m: int = -n + d - 1;
            vstd::arithmetic::div_mod::lemma_fundamental_div_mod(m, d as int);
            let r: int = m % (d as int);
            vstd::arithmetic::div_mod::lemma_mod_pos_bound(m, d as int);
            assert(n == (-q) * d + (d - 1 - r)) by (nonlinear_arith)
                requires
                    m == d * q + r,
                    m == -n + d - 1,
            ;
            vstd::arithmetic::div_mod::lemma_fundamental_div_mod_converse(
                n as int,
                d as int,
                -q,
                d - 1 - r,
            );
        }
        -q
    }
}

/// Rounded division on `i128` for a positive divisor.
pub fn round_div_exec(a: i128, b: i128) -> (q: i128)
    requires
        0 < b <= 0x1_0000_0000,
        -0x1_0000_0000_0000_0000_0000_0000 <= a <= 0x1_0000_0000_0000_0000_0000_0000,
    ensures
        q == round_div(a as int, b as int),
{
    floor_div(2 * a + b, 2 * b)
}

/// `v` moved into `[lo, hi]`.
pub fn clamp_i128(v: i128, lo: i64, hi: i64) -> (r: i64)
    requires
        lo <= hi,
    ensures
        r == clamp(v as int, lo as int, hi as int),
{
    if v < lo as i128 {
        lo
    } else if v > hi as i128 {
        hi
    } else {
        v as i64
    }
}

/// A rounded quotient lies within half a unit of the exact one:
/// `a - b/2 < b * round_div(a, b) <= a + b/2`.
pub proof fn lemma_round_div_bounds(a: int, b: int)
    requires
        b > 0,
    ensures
        2 * a - b < 2 * b * round_div(a, b) <= 2 * a + b,
{
    let n = 2 * a + b;
    let d = 2 * b;
    vstd::arithmetic::div_mod::lemma_fundamental_div_mod(n, d);
    vstd::arithmetic::div_mod::lemma_mod_bound(n, d);
    let q = n / d;
    assert(2 * a - b < 2 * b * q <= 2 * a + b) by (nonlinear_arith)
        requires
            n == d * q + n % d,
            0 <= n % d < d,
            n == 2 * a + b,
            d == 2 * b,
    ;
}

/// A position in the plane.
#[derive(Clone, Copy, Debug, PartialEq, Eq, Structural)]
pub struct Point {
    pub x: i64,
    pub y: i64,
}

/// A displacement in the plane.
#[derive(Clone, Copy, Debug, PartialEq, Eq, Structural)]
pub struct Vector {
    pub x: i64,
    pub y: i64,
}

impl Point {
    pub open spec fn in_world(self) -> bool {
        in_world(self.x as int) && in_world(self.y as int)
    }

    pub fn new(x: i64, y: i64) -> (p: Point)
        ensures
            p.x == x,
            p.y == y,
    {
        Point { x, y }
    }

    /// Whether the point lies inside the world extent.
    pub fn is_in_world(&self) -> (r: bool)
        ensures
            r == self.in_world(),
    {
        -WORLD_LIMIT <= self.x && self.x <= WORLD_LIMIT && -WORLD_LIMIT <= self.y && self.y
            <= WORLD_LIMIT
    }
}

impl Vector {
    pub open spec fn in_span(self) -> bool {
        in_span(self.x as int) && in_span(self.y as int)
    }

    pub fn new(x: i64, y: i64) -> (v: Vector)
        ensures
            v.x == x,
            v.y == y,
    {
        Vector { x, y }
    }
}

/// Squared Euclidean distance between two points.
pub open spec fn dist_sq(p: Point, q: Point) -> int {
    (p.x - q.x) * (p.x - q.x) + (p.y - q.y) * (p.y - q.y)
}

/// Dot product of `p - a` with `b - a`.
pub open spec fn dot_from(a: Point, p: Point, b: Point) -> int {
    (p.x - a.x) * (b.x - a.x) + (p.y - a.y) * (b.y - a.y)
}

/// Squared distance from `p` to the segment `[a, b]`, rounded down.
///
/// The projection parameter `t = (p - a)·(b - a) / |b - a|²` is clamped to
/// `[0, 1]`; at an end the distance is the one to that end, in between it is
/// `|p - a|² - ((p - a)·(b - a))² / |b - a|²`. Rounding down loses nothing in a
/// comparison `< k` with an integer `k`.
pub open spec fn seg_dist_sq(p: Point, a: Point, b: Point) -> int {
    let l2 = dist_sq(a, b);
    let dot = dot_from(a, p, b);
    if l2 == 0 || dot <= 0 {
        dist_sq(p, a)
    } else if dot >= l2 {
        dist_sq(p, b)
    } else {
        (dist_sq(p, a) * l2 - dot * dot) / l2
    }
}

proof fn lemma_square_bound(v: int, k: int)
    requires
        0 <= k,
        -k <= v <= k,
    ensures
        0 <= v * v <= k * k,
{
    assert(0 <= v * v <= k * k) by (nonlinear_arith)
        requires
            0 <= k,
            -k <= v <= k,
    ;
}

proof fn lemma_product_bound(u: int, v: int, k: int)
    requires
        0 <= k,
        -k <= u <= k,
        -k <= v <= k,
    ensures
        -(k * k) <= u * v <= k * k,
{
    assert(-(k * k) <= u * v <= k * k) by (nonlinear_arith)
        requires
            0 <= k,
            -k <= u <= k,
            -k <= v <= k,
    ;
}

/// Lagrange's identity in two dimensions.
proof fn lemma_lagrange(u1: int, u2: int, v1: int, v2: int)
    ensures
        (u1 * u1 + u2 * u2) * (v1 * v1 + v2 * v2) - (u1 * v1 + u2 * v2) * (u1 * v1 + u2 * v2) == (
        u1 * v2 - u2 * v1) * (u1 * v2 - u2 * v1),
{
    let a = u1 * v1;
    let b = u2 * v2;
    let c = u1 * v2;
    let d = u2 * v1;
    let uu1 = u1 * u1;
    let uu2 = u2 * u2;
    vstd::arithmetic::mul::lemma_mul_is_distributive_add(uu1 + uu2, v1 * v1, v2 * v2);
    vstd::arithmetic::mul::lemma_mul_is_distributive_add_other_way(v1 * v1, uu1, uu2);
    vstd::arithmetic::mul::lemma_mul_is_distributive_add_other_way(v2 * v2, uu1, uu2);
    assert(uu1 * (v1 * v1) == a * a) by (nonlinear_arith)
        requires
            uu1 == u1 * u1,
            a == u1 * v1,
    ;
    assert(uu1 * (v2 * v2) == c * c) by (nonlinear_arith)
        requires
            uu1 == u1 * u1,
            c == u1 * v2,
    ;
    assert(uu2 * (v1 * v1) == d * d) by (nonlinear_arith)
        requires
            uu2 == u2 * u2,
            d == u2 * v1,
    ;
    assert(uu2 * (v2 * v2) == b * b) by (nonlinear_arith)
        requires
            uu2 == u2 * u2,
            b == u2 * v2,
    ;
    assert(a * b == c * d) by (nonlinear_arith)
        requires
            a == u1 * v1,
            b == u2 * v2,
            c == u1 * v2,
            d == u2 * v1,
    ;
    assert((a + b) * (a + b) == a * a + 2 * (a * b) + b * b) by (nonlinear_arith);
    assert((c - d) * (c - d) == c * c - 2 * (c * d) + d * d) by (nonlinear_arith);
}

/// Squared Euclidean distance between two points of the world.
pub fn distance_sq(p: Point, q: Point) -> (r: i128)
    requires
        p.in_world(),
        q.in_world(),
    ensures
        r == dist_sq(p, q),
        0 <= r <= 2 * WORLD_SPAN * WORLD_SPAN,
{
    let dx = p.x as i128 - q.x as i128;
    let dy = p.y as i128 - q.y as i128;
    proof {
        lemma_square_bound(dx as int, WORLD_SPAN as int);
        lemma_square_bound(dy as int, WORLD_SPAN as int);
    }
    dx * dx + dy * dy
}

/// Squared distance from `p` to the segment `[a, b]`, rounded down (see
/// `seg_dist_sq`).
pub fn distance_sq_to_segment(p: Point, a: Point, b: Point) -> (r: i128)
    requires
        p.in_world(),
        a.in_world(),
        b.in_world(),
    ensures
        r == seg_dist_sq(p, a, b),
        0 <= r <= 2 * WORLD_SPAN * WORLD_SPAN,
{
    let l2 = distance_sq(a, b);
    let pax = p.x as i128 - a.x as i128;
    let pay = p.y as i128 - a.y as i128;
    let bax = b.x as i128 - a.x as i128;
    let bay = b.y as i128 - a.y as i128;
    proof {
        lemma_product_bound(pax as int, bax as int, WORLD_SPAN as int);
        lemma_product_bound(pay as int, bay as int, WORLD_SPAN as int);
    }
    let dot = pax * bax + pay * bay;
    if l2 == 0 || dot <= 0 {
        distance_sq(p, a)
    } else if dot >= l2 {
        distance_sq(p, b)
    } else {
        let pa2 = distance_sq(p, a);
        proof {
            lemma_square_bound(dot as int, 0x8_0000_0000_0000);
            assert(0 <= pa2 * l2 <= 0x8_0000_0000_0000 * 0x8_0000_0000_0000) by (nonlinear_arith)
                requires
                    0 <= pa2 <= 0x8_0000_0000_0000,
                    0 <= l2 <= 0x8_0000_0000_0000,
            ;
        }
        let n = pa2 * l2 - dot * dot;
        let q = floor_div(n, l2);
        proof {
            assert(l2 == bax * bax + bay * bay) by (nonlinear_arith)
                requires
                    l2 == (a.x - b.x) * (a.x - b.x) + (a.y - b.y) * (a.y - b.y),
                    bax == b.x - a.x,
                    bay == b.y - a.y,
            ;
            lemma_lagrange(pax as int, pay as int, bax as int, bay as int);
            assert(0 <= (pax * bay - pay * bax) * (pax * bay - pay * bax)) by (nonlinear_arith);
            assert(n / l2 <= pa2) by (nonlinear_arith)
                requires
                    0 <= n <= pa2 * l2,
                    l2 > 0,
            ;
            vstd::arithmetic::div_mod::lemma_div_pos_is_pos(n as int, l2 as int);
        }
        q
    }
}

/// An axis-aligned rectangle given by its two extreme corners.
#[derive(Clone, Copy, Debug, PartialEq, Eq, Structural)]
pub struct Rect {
    pub min: Point,
    pub max: Point,
}

impl Rect {
    /// The corners are ordered and lie inside the world.
    pub open spec fn wf(self) -> bool {
        &&& self.min.in_world()
        &&& self.max.in_world()
        &&& self.min.x <= self.max.x
        &&& self.min.y <= self.max.y
    }

    pub open spec fn spec_contains(self, p: Point) -> bool {
        self.min.x <= p.x <= self.max.x && self.min.y <= p.y <= self.max.y
    }

    /// Middle of the horizontal extent, rounded down.
    pub open spec fn center_x(self) -> int {
        (self.min.x + self.max.x) / 2
    }

    /// Middle of the vertical extent, rounded down.
    pub open spec fn center_y(self) -> int {
        (self.min.y + self.max.y) / 2
    }

    pub open spec fn width(self) -> int {
        self.max.x - self.min.x
    }

    pub open spec fn height(self) -> int {
        self.max.y - self.min.y
    }

    /// Whether the corners are ordered and lie inside the world.
    pub fn is_wf(&self) -> (r: bool)
        ensures
            r == self.wf(),
    {
        self.min.is_in_world() && self.max.is_in_world() && self.min.x <= self.max.x
            && self.min.y <= self.max.y
    }

    /// Closed containment test: the border belongs to the rectangle.
    pub fn contains(&self, p: Point) -> (r: bool)
        ensures
            r == self.spec_contains(p),
    {
        self.min.x <= p.x && p.x <= self.max.x && self.min.y <= p.y && p.y <= self.max.y
    }

    pub fn center(&self) -> (c: Point)
        requires
            self.wf(),
        ensures
            c.x == self.center_x(),
            c.y == self.center_y(),
            c.in_world(),
    {
        let cx = floor_div(self.min.x as i128 + self.max.x as i128, 2);
        let cy = floor_div(self.min.y as i128 + self.max.y as i128, 2);
        Point { x: cx as i64, y: cy as i64 }
    }

    /// The rectangle moved by `v`, held inside the world: each corner of the
    /// result is the moved corner, unless that would leave the world, in which
    /// case the rectangle stops at the world's edge with its size kept.
    pub open spec fn spec_translate(self, v: Vector) -> Rect {
        let x = clamp(self.min.x + v.x, -WORLD_LIMIT, WORLD_LIMIT - self.width());
        let y = clamp(self.min.y + v.y, -WORLD_LIMIT, WORLD_LIMIT - self.height());
        Rect {
            min: Point { x: x as i64, y: y as i64 },
            max: Point { x: (x + self.width()) as i64, y: (y + self.height()) as i64 },
        }
    }

    pub fn translate(&self, v: Vector) -> (r: Rect)
        requires
            self.wf(),
        ensures
            r == self.spec_translate(v),
            r.wf(),
            r.width() == self.width(),
            r.height() == self.height(),
    {
        let w = self.max.x - self.min.x;
        let h = self.max.y - self.min.y;
        let x = clamp_i128(self.min.x as i128 + v.x as i128, -WORLD_LIMIT, WORLD_LIMIT - w);
        let y = clamp_i128(self.min.y as i128 + v.y as i128, -WORLD_LIMIT, WORLD_LIMIT - h);
        Rect { min: Point { x, y }, max: Point { x: x + w, y: y + h } }
    }
}

} // verus!
