//! Free directions in 3-space: exact cross and dot products over the
//! fixed-point coordinates, used for surface normals and the local frames that
//! order a vertex star.

use vstd::prelude::*;
use crate::numeric::MAX_COORD;
use crate::numeric::round_div;
use crate::numeric::isqrt;
use crate::numeric::isqrt_spec;
use crate::numeric::lemma_isqrt_bounds;
use crate::numeric::round_div_spec;
use crate::numeric::lemma_round_div_bounds;
use crate::numeric::lemma_mul_bound;

verus! {

/// A direction with components in thousandths of a unit; unlike a point it
/// carries no position.
#[derive(Clone, Copy, Debug, PartialEq, Eq, Structural)]
pub struct Vector3 {
    /// Component along the first axis.
    pub x: i64,
    /// Component along the second axis.
    pub y: i64,
    /// Component along the third axis.
    pub z: i64,
}

/// Every component within `m` in magnitude.
pub open spec fn vec_within(v: Vector3, m: int) -> bool {
    &&& -m <= v.x <= m
    &&& -m <= v.y <= m
    &&& -m <= v.z <= m
}

/// The exact cross product of two integer vectors.
pub open spec fn cross_spec(u: Vector3, v: Vector3) -> Vector3 {
    Vector3 {
        x: (u.y * v.z - u.z * v.y) as i64,
        y: (u.z * v.x - u.x * v.z) as i64,
        z: (u.x * v.y - u.y * v.x) as i64,
    }
}

/// The exact dot product of two integer vectors.
pub open spec fn dot_spec(u: Vector3, v: Vector3) -> int {
    u.x * v.x + u.y * v.y + u.z * v.z
}

impl Vector3 {
    /// A vector from three components in thousandths of a unit.
    pub fn new(x: i64, y: i64, z: i64) -> (r: Vector3)
        ensures
            r == (Vector3 { x, y, z }),
    {
        Vector3 { x, y, z }
    }

    /// The cross product with `other`; exact, since no rounding is involved.
    pub fn cross(&self, other: &Vector3) -> (r: Vector3)
        requires
            vec_within(*self, 2 * MAX_COORD as int),
            vec_within(*other, 2 * MAX_COORD as int),
        ensures
            r == cross_spec(*self, *other),
            vec_within(r, 8 * (MAX_COORD as int) * (MAX_COORD as int)),
    {
        proof {
            lemma_mul_bound(self.y as int, other.z as int, 20_000_000, 20_000_000);
            lemma_mul_bound(self.z as int, other.y as int, 20_000_000, 20_000_000);
            lemma_mul_bound(self.z as int, other.x as int, 20_000_000, 20_000_000);
            lemma_mul_bound(self.x as int, other.z as int, 20_000_000, 20_000_000);
            lemma_mul_bound(self.x as int, other.y as int, 20_000_000, 20_000_000);
            lemma_mul_bound(self.y as int, other.x as int, 20_000_000, 20_000_000);
        }
        Vector3 {
            x: self.y * other.z - self.z * other.y,
            y: self.z * other.x - self.x * other.z,
            z: self.x * other.y - self.y * other.x,
        }
    }

    /// The dot product with `other`; exact, computed in a wide integer.
    pub fn dot(&self, other: &Vector3) -> (r: i128)
        requires
            vec_within(*self, 0x4000_0000_0000_0000),
            vec_within(*other, 0x4000_0000_0000_0000),
        ensures
            r as int == dot_spec(*self, *other),
    {
        proof {
            let m = 0x4000_0000_0000_0000int;
            assert forall|a: int, b: int| -m <= a <= m && -m <= b <= m implies
                -(m * m) <= #[trigger] (a * b) <= m * m by {
                assert(-(m * m) <= a * b <= m * m) by (nonlinear_arith)
                    requires -m <= a <= m && -m <= b <= m;
            }
        }
        (self.x as i128) * (other.x as i128) + (self.y as i128) * (other.y as i128)
            + (self.z as i128) * (other.z as i128)
    }

    /// The direction of this vector rescaled to one unit of length (a
    /// thousand thousandths), or nothing when the vector is too short to have
    /// a direction at this precision.
    pub fn normalize(&self) -> (r: Option<Vector3>)
        requires
            vec_within(*self, MAX_COORD as int),
        ensures
            r == normalize_spec(*self),
    {
        proof {
            let m = MAX_COORD as int;
            assert(0 <= self.x * self.x <= m * m && 0 <= self.y * self.y <= m * m
                && 0 <= self.z * self.z <= m * m) by (nonlinear_arith)
                requires -m <= self.x <= m && -m <= self.y <= m && -m <= self.z <= m;
        }
        let n: u64 = (self.x * self.x) as u64 + (self.y * self.y) as u64
            + (self.z * self.z) as u64;
        let m: u64 = isqrt(n);
        if m == 0 {
            return None;
        }
        proof {
            lemma_isqrt_bounds(n as int);
            let mm = m as int;
            assert(self.x * self.x <= n as int && self.y * self.y <= n as int
                && self.z * self.z <= n as int) by (nonlinear_arith)
                requires n as int == self.x * self.x + self.y * self.y + self.z * self.z;
            assert forall|a: i64| (a as int) * (a as int) <= n as int implies
                -0x2000_0000_0000_0000 <= #[trigger] (a as int * 1000)
                    <= 0x2000_0000_0000_0000
                && (-1000) * mm <= a as int * 1000 <= 1000 * mm by {
                assert(a as int * (a as int) < (mm + 1) * (mm + 1));
                assert(-(mm + 1) < (a as int) && (a as int) < mm + 1) by (nonlinear_arith)
                    requires (a as int) * (a as int) < (mm + 1) * (mm + 1) && mm >= 0;
                assert((-1000) * mm <= a as int * 1000 <= 1000 * mm) by (nonlinear_arith)
                    requires -mm <= a as int <= mm && mm >= 1;
            }
            assert forall|a: int| (-1000) * mm <= a <= 1000 * mm implies
                -1000 <= #[trigger] round_div_spec(a, mm) <= 1000 by {
                lemma_round_div_bounds(a, mm, -1000, 1000);
            }
        }
        Some(Vector3 {
            x: round_div(self.x * 1000, m),
            y: round_div(self.y * 1000, m),
            z: round_div(self.z * 1000, m),
        })
    }
}

/// The direction of `v` rescaled to one unit of length, or nothing when the
/// vector is too short to have a direction at this precision.
pub open spec fn normalize_spec(v: Vector3) -> Option<Vector3> {
    let m = isqrt_spec(dot_spec(v, v));
    if m == 0 {
        None
    } else {
        Some(Vector3 {
            x: round_div_spec(v.x * 1000, m) as i64,
            y: round_div_spec(v.y * 1000, m) as i64,
            z: round_div_spec(v.z * 1000, m) as i64,
        })
    }
}

} // verus!
