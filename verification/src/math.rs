//! Surface normals and the outward-direction test used to fix a tile's
//! winding order.

use vstd::prelude::*;
use crate::point::Point;
use crate::point::pt_ok;
use crate::vector::Vector3;
use crate::vector::cross_spec;
use crate::vector::vec_within;
use crate::numeric::lemma_mul_bound;

verus! {

/// The displacement from `q` to `p`, as a vector.
pub open spec fn pt_sub(p: Point, q: Point) -> Vector3 {
    Vector3 { x: (p.x - q.x) as i64, y: (p.y - q.y) as i64, z: (p.z - q.z) as i64 }
}

/// The (unnormalized) normal of the triangle `p1 p2 p3`: the cross product of
/// its two edge vectors out of `p1`.
pub open spec fn surface_normal_spec(p1: Point, p2: Point, p3: Point) -> Vector3 {
    cross_spec(pt_sub(p2, p1), pt_sub(p3, p1))
}

/// Whether `v` agrees in sign with `p` on every axis: the outward-facing test
/// for a normal of a tile that sits on a sphere centered at the origin.
pub open spec fn away_spec(p: Point, v: Vector3) -> bool {
    p.x * v.x >= 0 && p.y * v.y >= 0 && p.z * v.z >= 0
}

/// The (unnormalized) surface normal of the triangle `p1 p2 p3`.
pub fn calculate_surface_normal(p1: &Point, p2: &Point, p3: &Point) -> (r: Vector3)
    requires
        pt_ok(*p1),
        pt_ok(*p2),
        pt_ok(*p3),
    ensures
        r == surface_normal_spec(*p1, *p2, *p3),
        vec_within(r, 800_000_000_000_000),
{
    let u = Vector3 { x: p2.x - p1.x, y: p2.y - p1.y, z: p2.z - p1.z };
    let v = Vector3 { x: p3.x - p1.x, y: p3.y - p1.y, z: p3.z - p1.z };
    u.cross(&v)
}

/// Whether `vector` points away from the origin as seen from `point`: their
/// signs agree on all three axes.
pub fn pointing_away_from_origin(point: &Point, vector: &Vector3) -> (r: bool)
    ensures
        r == away_spec(*point, *vector),
{
    proof {
        lemma_mul_bound(point.x as int, vector.x as int, 0x8000_0000_0000_0000,
            0x8000_0000_0000_0000);
        lemma_mul_bound(point.y as int, vector.y as int, 0x8000_0000_0000_0000,
            0x8000_0000_0000_0000);
        lemma_mul_bound(point.z as int, vector.z as int, 0x8000_0000_0000_0000,
            0x8000_0000_0000_0000);
    }
    (point.x as i128) * (vector.x as i128) >= 0 && (point.y as i128) * (vector.y as i128) >= 0
        && (point.z as i128) * (vector.z as i128) >= 0
}

} // verus!
