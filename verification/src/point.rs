//! Quantized 3-space points: the vertices of the triangular mesh and the
//! centers and corners of the finished tiles.
//!
//! A coordinate is stored in thousandths of a unit, so two points that are
//! geometrically coincident after quantization are structurally equal and can
//! serve directly as deduplication keys.

use vstd::prelude::*;
use crate::numeric::MAX_COORD;
use crate::numeric::round_div;
use crate::numeric::round_div_spec;
use crate::numeric::lemma_round_div_bounds;
use crate::numeric::isqrt_spec;
use crate::numeric::lemma_isqrt_bounds;
use crate::numeric::isqrt;
use crate::numeric::sqrt_round;
use crate::numeric::sqrt_round_spec;

verus! {

/// A point with coordinates in thousandths of a unit.
#[derive(Clone, Copy, Debug, PartialEq, Eq, Hash, Structural)]
pub struct Point {
    /// Coordinate along the first axis, in thousandths of a unit.
    pub x: i64,
    /// Coordinate along the second axis, in thousandths of a unit.
    pub y: i64,
    /// Coordinate along the third axis, in thousandths of a unit.
    pub z: i64,
}

/// Every coordinate lies within the library's coordinate cap.
pub open spec fn pt_ok(p: Point) -> bool {
    &&& -MAX_COORD <= p.x <= MAX_COORD
    &&& -MAX_COORD <= p.y <= MAX_COORD
    &&& -MAX_COORD <= p.z <= MAX_COORD
}

/// The point a fraction `w / n` of the way from `p` to `q`, each coordinate
/// rounded to the nearest thousandth.
pub open spec fn lerp_spec(p: Point, q: Point, w: int, n: int) -> Point
    recommends
        n >= 1,
        0 <= w <= n,
{
    Point {
        x: round_div_spec(p.x * (n - w) + q.x * w, n) as i64,
        y: round_div_spec(p.y * (n - w) + q.y * w, n) as i64,
        z: round_div_spec(p.z * (n - w) + q.z * w, n) as i64,
    }
}

/// Interpolation between bounded points stays bounded.
pub proof fn lemma_lerp_ok(p: Point, q: Point, w: int, n: int)
    requires
        pt_ok(p),
        pt_ok(q),
        n >= 1,
        0 <= w <= n,
    ensures
        pt_ok(lerp_spec(p, q, w, n)),
{
    let m = MAX_COORD as int;
    assert forall|a: int, b: int| -m <= a <= m && -m <= b <= m implies
        -m <= #[trigger] round_div_spec(a * (n - w) + b * w, n) <= m by {
        assert((-m) * n <= a * (n - w) + b * w && a * (n - w) + b * w <= m * n)
            by (nonlinear_arith)
            requires -m <= a <= m && -m <= b <= m && 0 <= w <= n && n >= 1;
        lemma_round_div_bounds(a * (n - w) + b * w, n, -m, m);
    }
}

/// One interpolated coordinate, in executable form.
fn lerp_coord(a: i64, b: i64, w: u64, n: u64) -> (r: i64)
    requires
        1 <= n <= 1000,
        w <= n,
        -MAX_COORD <= a <= MAX_COORD,
        -MAX_COORD <= b <= MAX_COORD,
    ensures
        r as int == round_div_spec(a * (n - w) + b * w, n as int),
        -MAX_COORD <= r <= MAX_COORD,
{
    proof {
        let m = MAX_COORD as int;
        assert(-(m * 1000) <= a * (n - w) && a * (n - w) <= m * 1000
            && -(m * 1000) <= b * (w as int) && b * (w as int) <= m * 1000)
            by (nonlinear_arith)
            requires -m <= a <= m && -m <= b <= m && 0 <= w <= n && n <= 1000;
        assert((-m) * n <= a * (n - w) + b * w && a * (n - w) + b * w <= m * n)
            by (nonlinear_arith)
            requires -m <= a <= m && -m <= b <= m && 0 <= w <= n && n >= 1;
        lemma_round_div_bounds(a * (n - w) + b * w, n as int, -m, m);
    }
    let num: i64 = a * (n as i64 - w as i64) + b * (w as i64);
    round_div(num, n)
}

/// Interpolation of all three coordinates, in executable form.
pub fn lerp(p: &Point, q: &Point, w: u64, n: u64) -> (r: Point)
    requires
        1 <= n <= 1000,
        w <= n,
        pt_ok(*p),
        pt_ok(*q),
    ensures
        r == lerp_spec(*p, *q, w as int, n as int),
        pt_ok(r),
{
    proof {
        lemma_lerp_ok(*p, *q, w as int, n as int);
    }
    Point {
        x: lerp_coord(p.x, q.x, w, n),
        y: lerp_coord(p.y, q.y, w, n),
        z: lerp_coord(p.z, q.z, w, n),
    }
}

/// The squared magnitude of a point.
pub open spec fn mag2_spec(p: Point) -> int {
    p.x * p.x + p.y * p.y + p.z * p.z
}

/// The magnitude of a point, in thousandths of a unit, rounded down.
pub open spec fn mag_spec(p: Point) -> int {
    isqrt_spec(mag2_spec(p))
}

/// The projection of `p` onto the sphere of radius `r`: the point is rescaled
/// along its own direction so that its magnitude becomes `r`.  A point whose
/// magnitude rounds down to zero has no direction at this precision and cannot
/// be projected.
pub open spec fn project_spec(p: Point, r: int) -> Option<Point>
    recommends
        1 <= r <= MAX_COORD as int,
{
    let m = mag_spec(p);
    if m == 0 {
        None
    } else {
        Some(Point {
            x: round_div_spec(p.x * r, m) as i64,
            y: round_div_spec(p.y * r, m) as i64,
            z: round_div_spec(p.z * r, m) as i64,
        })
    }
}

/// A projected point is bounded by the target radius.
pub proof fn lemma_project_ok(p: Point, r: int)
    requires
        pt_ok(p),
        1 <= r <= MAX_COORD as int,
        project_spec(p, r) is Some,
    ensures
        pt_ok(project_spec(p, r)->Some_0),
        -r <= project_spec(p, r)->Some_0.x <= r,
        -r <= project_spec(p, r)->Some_0.y <= r,
        -r <= project_spec(p, r)->Some_0.z <= r,
{
    let m = mag_spec(p);
    lemma_isqrt_bounds(mag2_spec(p));
    assert(p.x * p.x <= mag2_spec(p) && p.y * p.y <= mag2_spec(p) && p.z * p.z <= mag2_spec(p))
        by (nonlinear_arith);
    assert forall|a: int| a * a <= mag2_spec(p) implies
        -r <= #[trigger] round_div_spec(a * r, m) <= r by {
        assert(a * a < (m + 1) * (m + 1)) by {
            assert(m * m <= mag2_spec(p) < (m + 1) * (m + 1));
        }
        assert(-(m + 1) < a < m + 1) by (nonlinear_arith)
            requires a * a < (m + 1) * (m + 1) && m >= 0;
        assert((-r) * m <= a * r && a * r <= r * m) by (nonlinear_arith)
            requires -m <= a <= m && r >= 1;
        lemma_round_div_bounds(a * r, m, -r, r);
    }
}

/// The distance between two points, in thousandths of a unit, rounded to the
/// nearest thousandth.
pub open spec fn dist_spec(p: Point, q: Point) -> int {
    sqrt_round_spec(
        (p.x - q.x) * (p.x - q.x) + (p.y - q.y) * (p.y - q.y) + (p.z - q.z) * (p.z - q.z),
    )
}

impl Point {
    /// A point from three coordinates given in thousandths of a unit.
    pub fn new(x: i64, y: i64, z: i64) -> (r: Point)
        ensures
            r == (Point { x, y, z }),
    {
        Point { x, y, z }
    }

    /// The distance to `other`, in thousandths of a unit, rounded to the
    /// nearest thousandth.
    pub fn distance_to(&self, other: &Point) -> (r: i64)
        requires
            pt_ok(*self),
            pt_ok(*other),
        ensures
            r as int == dist_spec(*self, *other),
            0 <= r,
    {
        let dx: i64 = self.x - other.x;
        let dy: i64 = self.y - other.y;
        let dz: i64 = self.z - other.z;
        proof {
            let m = 2 * MAX_COORD as int;
            assert(0 <= dx * dx <= m * m && 0 <= dy * dy <= m * m && 0 <= dz * dz <= m * m)
                by (nonlinear_arith)
                requires -m <= dx <= m && -m <= dy <= m && -m <= dz <= m;
        }
        let n: u64 = (dx * dx) as u64 + (dy * dy) as u64 + (dz * dz) as u64;
        sqrt_round(n) as i64
    }

    /// The point a fraction `h` (in thousandths, clamped to [0, 1000]) of the
    /// way from this point toward `other`.
    pub fn segment(&self, other: &Point, h: i64) -> (r: Point)
        requires
            pt_ok(*self),
            pt_ok(*other),
        ensures
            r == segment_spec(*self, *other, h as int),
            pt_ok(r),
    {
        let hc: u64 = if h < 0 {
            0
        } else if h > 1000 {
            1000
        } else {
            h as u64
        };
        lerp(self, other, hc, 1000)
    }

    /// The chain of `count + 1` evenly spaced points from this point to
    /// `other`, endpoints included; with a count of zero, just this point.
    pub fn subdivide(&self, other: &Point, count: usize) -> (r: Vec<Point>)
        requires
            pt_ok(*self),
            pt_ok(*other),
            count <= 1000,
        ensures
            r@.len() == if count == 0 { 1int } else { count + 1 },
            forall|j: int| 0 <= j < r@.len()
                ==> #[trigger] r@[j] == chain_point(*self, *other, j, count as int),
    {
        let mut out: Vec<Point> = Vec::new();
        out.push(*self);
        if count == 0 {
            return out;
        }
        let mut i: usize = 1;
        while i < count
            invariant
                1 <= i <= count,
                1 <= count <= 1000,
                pt_ok(*self),
                pt_ok(*other),
                out@.len() == i,
                forall|j: int| 0 <= j < i
                    ==> #[trigger] out@[j] == chain_point(*self, *other, j, count as int),
            decreases count - i,
        {
            let p = lerp(self, other, i as u64, count as u64);
            out.push(p);
            i = i + 1;
        }
        out.push(*other);
        out
    }

    /// The projection of this point onto the sphere of radius `radius`
    /// thousandths, or nothing when the point is too close to the origin to
    /// have a direction at this precision.
    pub fn project(&self, radius: i64) -> (r: Option<Point>)
        requires
            pt_ok(*self),
            1 <= radius <= MAX_COORD,
        ensures
            r == project_spec(*self, radius as int),
            r is Some ==> pt_ok(r->Some_0),
    {
        proof {
            let m = MAX_COORD as int;
            assert(0 <= self.x * self.x <= m * m && 0 <= self.y * self.y <= m * m
                && 0 <= self.z * self.z <= m * m) by (nonlinear_arith)
                requires -m <= self.x <= m && -m <= self.y <= m && -m <= self.z <= m;
        }
        let n: u64 = (self.x * self.x) as u64 + (self.y * self.y) as u64
            + (self.z * self.z) as u64;
        let m: u64 = isqrt(n);
        if m == 0 {
            return None;
        }
        proof {
            lemma_isqrt_bounds(n as int);
            let mm = m as int;
            assert(mm <= 2 * MAX_COORD as int) by (nonlinear_arith)
                requires mm >= 0 && mm * mm <= n as int
                    && n as int <= 3 * (MAX_COORD as int) * (MAX_COORD as int);
            assert(self.x * self.x <= n as int && self.y * self.y <= n as int
                && self.z * self.z <= n as int) by (nonlinear_arith)
                requires n as int == self.x * self.x + self.y * self.y + self.z * self.z;
            assert forall|a: i64| (a as int) * (a as int) <= n as int implies
                -0x2000_0000_0000_0000 <= #[trigger] (a as int * radius as int)
                    <= 0x2000_0000_0000_0000 by {
                assert(a as int * (a as int) < (mm + 1) * (mm + 1));
                assert(-(mm + 1) < (a as int) && (a as int) < mm + 1) by (nonlinear_arith)
                    requires (a as int) * (a as int) < (mm + 1) * (mm + 1) && mm >= 0;
                assert(-0x2000_0000_0000_0000 <= (a as int) * (radius as int)
                    <= 0x2000_0000_0000_0000) by (nonlinear_arith)
                    requires -(2 * MAX_COORD as int) - 1 < a as int
                        && (a as int) < 2 * MAX_COORD as int + 1
                        && 1 <= radius as int <= MAX_COORD as int;
            }
            lemma_project_ok(*self, radius as int);
        }
        let p = Point {
            x: round_div(self.x * radius, m),
            y: round_div(self.y * radius, m),
            z: round_div(self.z * radius, m),
        };
        Some(p)
    }
}

/// One entry of the chain that `Point::subdivide` produces.
pub open spec fn chain_point(p: Point, q: Point, j: int, count: int) -> Point {
    if j == 0 {
        p
    } else if j == count {
        q
    } else {
        lerp_spec(p, q, j, count)
    }
}

/// The point a clamped fraction `h` of a thousand of the way from `p` to `q`.
pub open spec fn segment_spec(p: Point, q: Point, h: int) -> Point {
    let hc = if h < 0 {
        0
    } else if h > 1000 {
        1000
    } else {
        h
    };
    lerp_spec(p, q, hc, 1000)
}

/// The centroid of a triangle, each coordinate rounded to the nearest
/// thousandth.
pub open spec fn centroid_spec(a: Point, b: Point, c: Point) -> Point {
    Point {
        x: round_div_spec(a.x + b.x + c.x, 3) as i64,
        y: round_div_spec(a.y + b.y + c.y, 3) as i64,
        z: round_div_spec(a.z + b.z + c.z, 3) as i64,
    }
}

/// The centroid of a bounded triangle is bounded.
pub proof fn lemma_centroid_ok(a: Point, b: Point, c: Point)
    requires
        pt_ok(a),
        pt_ok(b),
        pt_ok(c),
    ensures
        pt_ok(centroid_spec(a, b, c)),
{
    let m = MAX_COORD as int;
    assert forall|u: int, v: int, w: int|
        -m <= u <= m && -m <= v <= m && -m <= w <= m implies
        -m <= #[trigger] round_div_spec(u + v + w, 3) <= m by {
        assert((-m) * 3 <= u + v + w <= m * 3);
        lemma_round_div_bounds(u + v + w, 3, -m, m);
    }
}

/// The centroid of a bounded triangle, in executable form.
pub fn centroid3(a: &Point, b: &Point, c: &Point) -> (r: Point)
    requires
        pt_ok(*a),
        pt_ok(*b),
        pt_ok(*c),
    ensures
        r == centroid_spec(*a, *b, *c),
        pt_ok(r),
{
    proof {
        lemma_centroid_ok(*a, *b, *c);
        let m = MAX_COORD as int;
        lemma_round_div_bounds(a.x + b.x + c.x, 3, -m, m);
        lemma_round_div_bounds(a.y + b.y + c.y, 3, -m, m);
        lemma_round_div_bounds(a.z + b.z + c.z, 3, -m, m);
    }
    Point {
        x: round_div(a.x + b.x + c.x, 3),
        y: round_div(a.y + b.y + c.y, 3),
        z: round_div(a.z + b.z + c.z, 3),
    }
}

} // verus!
