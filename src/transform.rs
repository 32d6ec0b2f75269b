//! The affine map between world and screen coordinates.
//!
//! The zoom factor is held in thousandths (`zoom == 2000` means two screen
//! units per world unit). Every conversion rounds to the nearest unit, halves
//! rounding up; world results are held inside the world extent.
use vstd::prelude::*;
use crate::geometry::{
    clamp, clamp_i128, in_world, round_div, round_div_exec, Point, Rect, Vector, WORLD_LIMIT,
    WORLD_SPAN,
};

verus! {

/// Zoom factor of one, in thousandths.
pub const ZOOM_SCALE: i64 = 1000;

/// Smallest zoom factor, in thousandths.
pub const MIN_ZOOM: i64 = 50;

/// Largest zoom factor, in thousandths.
pub const MAX_ZOOM: i64 = 20000;

/// World coordinate shown at screen coordinate `s`.
pub open spec fn screen_coord_to_world(pan: int, zoom: int, s: int) -> int {
    clamp(pan + round_div(s * ZOOM_SCALE, zoom), -WORLD_LIMIT as int, WORLD_LIMIT as int)
}

/// Screen coordinate at which world coordinate `w` is shown.
pub open spec fn world_coord_to_screen(pan: int, zoom: int, w: int) -> int {
    round_div((w - pan) * zoom, ZOOM_SCALE as int)
}

/// World length of a screen displacement, held inside the world's span.
pub open spec fn screen_len_to_world(zoom: int, v: int) -> int {
    clamp(round_div(v * ZOOM_SCALE, zoom), -WORLD_SPAN as int, WORLD_SPAN as int)
}

/// Screen length of a world displacement.
pub open spec fn world_len_to_screen(zoom: int, v: int) -> int {
    round_div(v * zoom, ZOOM_SCALE as int)
}

/// Pan and zoom of the canvas.
#[derive(Clone, Copy, Debug, PartialEq, Eq, Structural)]
pub struct Transform {
    /// World position shown at the screen origin.
    pub pan: Point,
    /// Screen units per world unit, in thousandths.
    pub zoom: i64,
}

fn screen_coord_exec(pan: i64, zoom: i64, s: i64) -> (r: i64)
    requires
        in_world(pan as int),
        MIN_ZOOM <= zoom <= MAX_ZOOM,
    ensures
        r == screen_coord_to_world(pan as int, zoom as int, s as int),
        in_world(r as int),
{
    let q = round_div_exec(s as i128 * ZOOM_SCALE as i128, zoom as i128);
    proof {
        crate::geometry::lemma_round_div_bounds(s * ZOOM_SCALE, zoom as int);
        assert(-0x1_0000_0000_0000_0000_0000 <= q <= 0x1_0000_0000_0000_0000_0000) by (
        nonlinear_arith)
            requires
                2 * s * ZOOM_SCALE - zoom < 2 * zoom * q <= 2 * s * ZOOM_SCALE + zoom,
                MIN_ZOOM <= zoom,
                -0x8000_0000_0000_0000 <= s < 0x8000_0000_0000_0000,
        ;
    }
    clamp_i128(pan as i128 + q, -WORLD_LIMIT, WORLD_LIMIT)
}

fn world_coord_exec(pan: i64, zoom: i64, w: i64) -> (r: i64)
    requires
        in_world(pan as int),
        in_world(w as int),
        MIN_ZOOM <= zoom <= MAX_ZOOM,
    ensures
        r == world_coord_to_screen(pan as int, zoom as int, w as int),
        -WORLD_SPAN * MAX_ZOOM <= r <= WORLD_SPAN * MAX_ZOOM,
{
    let d = w as i128 - pan as i128;
    proof {
        assert(-WORLD_SPAN * MAX_ZOOM <= d * zoom <= WORLD_SPAN * MAX_ZOOM) by (nonlinear_arith)
            requires
                -WORLD_SPAN <= d <= WORLD_SPAN,
                MIN_ZOOM <= zoom <= MAX_ZOOM,
        ;
    }
    let q = round_div_exec(d * zoom as i128, ZOOM_SCALE as i128);
    proof {
        crate::geometry::lemma_round_div_bounds(d * zoom, ZOOM_SCALE as int);
    }
    q as i64
}

fn screen_len_exec(zoom: i64, v: i64) -> (r: i64)
    requires
        MIN_ZOOM <= zoom <= MAX_ZOOM,
    ensures
        r == screen_len_to_world(zoom as int, v as int),
        -WORLD_SPAN <= r <= WORLD_SPAN,
{
    assert(-0x8000_0000_0000_0000 * 1000 <= v * ZOOM_SCALE <= 0x8000_0000_0000_0000 * 1000);
    let q = round_div_exec(v as i128 * ZOOM_SCALE as i128, zoom as i128);
    clamp_i128(q, -WORLD_SPAN, WORLD_SPAN)
}

fn world_len_exec(zoom: i64, v: i64) -> (r: i64)
    requires
        -WORLD_SPAN <= v <= WORLD_SPAN,
        MIN_ZOOM <= zoom <= MAX_ZOOM,
    ensures
        r == world_len_to_screen(zoom as int, v as int),
{
    proof {
        assert(-WORLD_SPAN * MAX_ZOOM <= v * zoom <= WORLD_SPAN * MAX_ZOOM) by (nonlinear_arith)
            requires
                -WORLD_SPAN <= v <= WORLD_SPAN,
                MIN_ZOOM <= zoom <= MAX_ZOOM,
        ;
        crate::geometry::lemma_round_div_bounds(v * zoom, ZOOM_SCALE as int);
    }
    round_div_exec(v as i128 * zoom as i128, ZOOM_SCALE as i128) as i64
}

impl Transform {
    /// The pan lies in the world and the zoom in its allowed range.
    pub open spec fn wf(self) -> bool {
        &&& self.pan.in_world()
        &&& MIN_ZOOM <= self.zoom <= MAX_ZOOM
    }

    /// A transform with the given pan and zoom, each clamped to its range.
    pub fn new(pan: Point, zoom: i64) -> (t: Transform)
        ensures
            t.wf(),
            t.pan.x == clamp(pan.x as int, -WORLD_LIMIT as int, WORLD_LIMIT as int),
            t.pan.y == clamp(pan.y as int, -WORLD_LIMIT as int, WORLD_LIMIT as int),
            t.zoom == clamp(zoom as int, MIN_ZOOM as int, MAX_ZOOM as int),
    {
        Transform {
            pan: Point {
                x: clamp_i128(pan.x as i128, -WORLD_LIMIT, WORLD_LIMIT),
                y: clamp_i128(pan.y as i128, -WORLD_LIMIT, WORLD_LIMIT),
            },
            zoom: clamp_i128(zoom as i128, MIN_ZOOM, MAX_ZOOM),
        }
    }

    pub open spec fn spec_screen_to_world(self, s: Point) -> Point {
        Point {
            x: screen_coord_to_world(self.pan.x as int, self.zoom as int, s.x as int) as i64,
            y: screen_coord_to_world(self.pan.y as int, self.zoom as int, s.y as int) as i64,
        }
    }

    pub open spec fn spec_world_to_screen(self, w: Point) -> Point {
        Point {
            x: world_coord_to_screen(self.pan.x as int, self.zoom as int, w.x as int) as i64,
            y: world_coord_to_screen(self.pan.y as int, self.zoom as int, w.y as int) as i64,
        }
    }

    pub open spec fn spec_screen_vec_to_world(self, v: Vector) -> Vector {
        Vector {
            x: screen_len_to_world(self.zoom as int, v.x as int) as i64,
            y: screen_len_to_world(self.zoom as int, v.y as int) as i64,
        }
    }

    pub open spec fn spec_world_vec_to_screen(self, v: Vector) -> Vector {
        Vector {
            x: world_len_to_screen(self.zoom as int, v.x as int) as i64,
            y: world_len_to_screen(self.zoom as int, v.y as int) as i64,
        }
    }

    /// World position under screen position `s`: `pan + s / zoom`, rounded
    /// and held inside the world.
    pub fn screen_to_world(&self, s: Point) -> (w: Point)
        requires
            self.wf(),
        ensures
            w == self.spec_screen_to_world(s),
            w.in_world(),
    {
        Point {
            x: screen_coord_exec(self.pan.x, self.zoom, s.x),
            y: screen_coord_exec(self.pan.y, self.zoom, s.y),
        }
    }

    /// Screen position of world position `w`: `(w - pan) * zoom`, rounded.
    pub fn world_to_screen(&self, w: Point) -> (s: Point)
        requires
            self.wf(),
            w.in_world(),
        ensures
            s == self.spec_world_to_screen(w),
    {
        Point {
            x: world_coord_exec(self.pan.x, self.zoom, w.x),
            y: world_coord_exec(self.pan.y, self.zoom, w.y),
        }
    }

    /// Both corners of a world rectangle taken to the screen.
    pub fn world_rect_to_screen(&self, r: Rect) -> (s: Rect)
        requires
            self.wf(),
            r.wf(),
        ensures
            s.min == self.spec_world_to_screen(r.min),
            s.max == self.spec_world_to_screen(r.max),
    {
        Rect { min: self.world_to_screen(r.min), max: self.world_to_screen(r.max) }
    }

    /// A screen displacement (a pointer delta) in world units: `v / zoom`,
    /// rounded; the pan plays no part.
    pub fn screen_vec_to_world(&self, v: Vector) -> (w: Vector)
        requires
            self.wf(),
        ensures
            w == self.spec_screen_vec_to_world(v),
            w.in_span(),
    {
        Vector { x: screen_len_exec(self.zoom, v.x), y: screen_len_exec(self.zoom, v.y) }
    }

    /// A world displacement in screen units: `v * zoom`, rounded; the pan
    /// plays no part.
    pub fn world_vec_to_screen(&self, v: Vector) -> (s: Vector)
        requires
            self.wf(),
            v.in_span(),
        ensures
            s == self.spec_world_vec_to_screen(v),
    {
        Vector { x: world_len_exec(self.zoom, v.x), y: world_len_exec(self.zoom, v.y) }
    }

    /// Changes the zoom to `new_zoom` (clamped to its range) while the world
    /// point under the screen position `cursor` stays there: the pivot is
    /// taken with the old zoom, then `pan = pivot - cursor / new_zoom`.
    pub fn zoom_at(&mut self, cursor: Point, new_zoom: i64)
        requires
            old(self).wf(),
        ensures
            final(self).wf(),
            final(self).zoom == clamp(new_zoom as int, MIN_ZOOM as int, MAX_ZOOM as int),
            ({
                let pivot = old(self).spec_screen_to_world(cursor);
                let z = final(self).zoom as int;
                &&& final(self).pan.x == clamp(
                    pivot.x - round_div(cursor.x * ZOOM_SCALE, z),
                    -WORLD_LIMIT as int,
                    WORLD_LIMIT as int,
                )
                &&& final(self).pan.y == clamp(
                    pivot.y - round_div(cursor.y * ZOOM_SCALE, z),
                    -WORLD_LIMIT as int,
                    WORLD_LIMIT as int,
                )
            }),
    {
        let pivot = self.screen_to_world(cursor);
        let z = clamp_i128(new_zoom as i128, MIN_ZOOM, MAX_ZOOM);
        let ox = round_div_exec(cursor.x as i128 * ZOOM_SCALE as i128, z as i128);
        let oy = round_div_exec(cursor.y as i128 * ZOOM_SCALE as i128, z as i128);
        proof {
            crate::geometry::lemma_round_div_bounds(cursor.x * ZOOM_SCALE, z as int);
            crate::geometry::lemma_round_div_bounds(cursor.y * ZOOM_SCALE, z as int);
            assert(-0x1_0000_0000_0000_0000_0000 <= ox <= 0x1_0000_0000_0000_0000_0000) by (
            nonlinear_arith)
                requires
                    2 * cursor.x * ZOOM_SCALE - z < 2 * z * ox <= 2 * cursor.x * ZOOM_SCALE + z,
                    MIN_ZOOM <= z,
                    -0x8000_0000_0000_0000 <= cursor.x < 0x8000_0000_0000_0000,
            ;
            assert(-0x1_0000_0000_0000_0000_0000 <= oy <= 0x1_0000_0000_0000_0000_0000) by (
            nonlinear_arith)
                requires
                    2 * cursor.y * ZOOM_SCALE - z < 2 * z * oy <= 2 * cursor.y * ZOOM_SCALE + z,
                    MIN_ZOOM <= z,
                    -0x8000_0000_0000_0000 <= cursor.y < 0x8000_0000_0000_0000,
            ;
        }
        self.pan = Point {
            x: clamp_i128(pivot.x as i128 - ox, -WORLD_LIMIT, WORLD_LIMIT),
            y: clamp_i128(pivot.y as i128 - oy, -WORLD_LIMIT, WORLD_LIMIT),
        };
        self.zoom = z;
    }

    /// Drags the canvas by a screen displacement: the pan moves against it by
    /// its world length, held inside the world.
    pub fn pan_by_screen(&mut self, delta: Vector)
        requires
            old(self).wf(),
        ensures
            final(self).wf(),
            final(self).zoom == old(self).zoom,
            ({
                let dw = old(self).spec_screen_vec_to_world(delta);
                &&& final(self).pan.x == clamp(
                    old(self).pan.x - dw.x,
                    -WORLD_LIMIT as int,
                    WORLD_LIMIT as int,
                )
                &&& final(self).pan.y == clamp(
                    old(self).pan.y - dw.y,
                    -WORLD_LIMIT as int,
                    WORLD_LIMIT as int,
                )
            }),
    {
        let dw = self.screen_vec_to_world(delta);
        self.pan = Point {
            x: clamp_i128(self.pan.x as i128 - dw.x as i128, -WORLD_LIMIT, WORLD_LIMIT),
            y: clamp_i128(self.pan.y as i128 - dw.y as i128, -WORLD_LIMIT, WORLD_LIMIT),
        };
    }
}

pub open spec fn abs(v: int) -> int {
    if v < 0 {
        -v
    } else {
        v
    }
}

proof fn lemma_coord_round_trip(pan: int, z: int, w: int)
    requires
        in_world(pan),
        in_world(w),
        MIN_ZOOM <= z <= MAX_ZOOM,
    ensures
        ({
            let s = world_coord_to_screen(pan, z, w);
            let q = screen_coord_to_world(pan, z, s);
            &&& -WORLD_SPAN * MAX_ZOOM <= s <= WORLD_SPAN * MAX_ZOOM
            &&& z >= ZOOM_SCALE ==> q == w
            &&& 2 * z * abs(q - w) <= ZOOM_SCALE + z
        }),
{
    let d = w - pan;
    let s = world_coord_to_screen(pan, z, w);
    let x = round_div(s * ZOOM_SCALE, z);
    crate::geometry::lemma_round_div_bounds(d * z, ZOOM_SCALE as int);
    crate::geometry::lemma_round_div_bounds(s * ZOOM_SCALE, z);
    assert(-WORLD_SPAN * MAX_ZOOM <= d * z <= WORLD_SPAN * MAX_ZOOM) by (nonlinear_arith)
        requires
            -WORLD_SPAN <= d <= WORLD_SPAN,
            MIN_ZOOM <= z <= MAX_ZOOM,
    ;
    assert(-(ZOOM_SCALE + z) < 2 * z * (x - d) <= ZOOM_SCALE + z) by (nonlinear_arith)
        requires
            2 * (d * z) - 1000 < 2 * 1000 * s <= 2 * (d * z) + 1000,
            2 * (s * 1000) - z < 2 * z * x <= 2 * (s * 1000) + z,
    ;
    if z > ZOOM_SCALE {
        assert(x == d) by (nonlinear_arith)
            requires
                -(ZOOM_SCALE + z) < 2 * z * (x - d) <= ZOOM_SCALE + z,
                z > ZOOM_SCALE,
        ;
    } else if z == ZOOM_SCALE {
        assert(s == d) by (nonlinear_arith)
            requires
                2 * (d * z) - 1000 < 2 * 1000 * s <= 2 * (d * z) + 1000,
                z == 1000,
        ;
        assert(x == d) by (nonlinear_arith)
            requires
                2 * (s * 1000) - z < 2 * z * x <= 2 * (s * 1000) + z,
                z == 1000,
                s == d,
        ;
    }
    assert(2 * z * abs(x - d) <= ZOOM_SCALE + z) by (nonlinear_arith)
        requires
            -(ZOOM_SCALE + z) < 2 * z * (x - d) <= ZOOM_SCALE + z,
            z > 0,
            abs(x - d) == if x - d < 0 { -(x - d) } else { x - d },
    ;
    let q = screen_coord_to_world(pan, z, s);
    assert(abs(q - w) <= abs(x - d));
    assert(2 * z * abs(q - w) <= 2 * z * abs(x - d)) by (nonlinear_arith)
        requires
            abs(q - w) <= abs(x - d),
            z > 0,
    ;
}

/// Taking a world point to the screen and back gives it again: exactly when
/// the zoom is at least one, and otherwise up to the rounding of one screen
/// unit, `2 * zoom * |error| <= ZOOM_SCALE + zoom` in each coordinate.
pub proof fn lemma_screen_world_round_trip(t: Transform, p: Point)
    requires
        t.wf(),
        p.in_world(),
    ensures
        ({
            let q = t.spec_screen_to_world(t.spec_world_to_screen(p));
            &&& t.zoom >= ZOOM_SCALE ==> q == p
            &&& 2 * t.zoom * abs(q.x - p.x) <= ZOOM_SCALE + t.zoom
            &&& 2 * t.zoom * abs(q.y - p.y) <= ZOOM_SCALE + t.zoom
        }),
{
    lemma_coord_round_trip(t.pan.x as int, t.zoom as int, p.x as int);
    lemma_coord_round_trip(t.pan.y as int, t.zoom as int, p.y as int);
}

} // verus!
