//! Triangular faces of the subdivided icosahedron.  A face's centroid becomes
//! one corner of the dual tile built around each of its three vertices.

use vstd::prelude::*;
use crate::point::Point;
use crate::point::pt_ok;
use crate::point::centroid_spec;
use crate::point::centroid3;

verus! {

/// A triangular face: three vertices and an identifier that records the order
/// in which the subdivision emitted it.
#[derive(Clone, Copy, Debug, PartialEq, Eq, Structural)]
pub struct Face {
    /// Position of this face in the order of emission.
    pub id: usize,
    /// First vertex.
    pub a: Point,
    /// Second vertex.
    pub b: Point,
    /// Third vertex.
    pub c: Point,
}

/// All three vertices within the coordinate cap.
pub open spec fn face_ok(f: Face) -> bool {
    pt_ok(f.a) && pt_ok(f.b) && pt_ok(f.c)
}

/// The centroid of a face.
pub open spec fn face_centroid_spec(f: Face) -> Point {
    centroid_spec(f.a, f.b, f.c)
}

/// Whether `p` is one of the vertices of `f`.
pub open spec fn face_has_vertex(f: Face, p: Point) -> bool {
    f.a == p || f.b == p || f.c == p
}

/// The vertices of `f` other than `p`, in face order.
pub open spec fn other_points_spec(f: Face, p: Point) -> Seq<Point> {
    let t0: Seq<Point> = seq![];
    let t1: Seq<Point> = if f.a != p { t0.push(f.a) } else { t0 };
    let t2: Seq<Point> = if f.b != p { t1.push(f.b) } else { t1 };
    if f.c != p { t2.push(f.c) } else { t2 }
}

/// The vertex of `f` that is neither `p1` nor `p2`, first in face order.
pub open spec fn third_point_spec(f: Face, p1: Point, p2: Point) -> Option<Point> {
    if f.a != p1 && f.a != p2 {
        Some(f.a)
    } else if f.b != p1 && f.b != p2 {
        Some(f.b)
    } else if f.c != p1 && f.c != p2 {
        Some(f.c)
    } else {
        None
    }
}

/// How many vertices of `f` are also vertices of `g`.
pub open spec fn shared_vertices_spec(f: Face, g: Face) -> int {
    (if face_has_vertex(g, f.a) { 1int } else { 0int })
        + (if face_has_vertex(g, f.b) { 1int } else { 0int })
        + (if face_has_vertex(g, f.c) { 1int } else { 0int })
}

impl Face {
    /// A face from its identifier and three vertices.
    pub fn new(id: usize, p1: Point, p2: Point, p3: Point) -> (r: Face)
        ensures
            r == (Face { id, a: p1, b: p2, c: p3 }),
    {
        Face { id, a: p1, b: p2, c: p3 }
    }

    /// The centroid of this face, rounded to the nearest thousandth.
    pub fn get_centroid(&self) -> (r: Point)
        requires
            face_ok(*self),
        ensures
            r == face_centroid_spec(*self),
            pt_ok(r),
    {
        centroid3(&self.a, &self.b, &self.c)
    }

    /// The vertices of this face other than `point`, in face order.
    pub fn get_other_points(&self, point: &Point) -> (r: Vec<Point>)
        ensures
            r@ == other_points_spec(*self, *point),
    {
        let mut out: Vec<Point> = Vec::new();
        if !(self.a == *point) {
            out.push(self.a);
        }
        if !(self.b == *point) {
            out.push(self.b);
        }
        if !(self.c == *point) {
            out.push(self.c);
        }
        proof {
            assert(out@ =~= other_points_spec(*self, *point));
        }
        out
    }

    /// The vertex of this face that is neither `p1` nor `p2`, if there is
    /// one; the first such vertex in face order.
    pub fn find_third_point(&self, p1: &Point, p2: &Point) -> (r: Option<Point>)
        ensures
            r == third_point_spec(*self, *p1, *p2),
    {
        if !(self.a == *p1) && !(self.a == *p2) {
            Some(self.a)
        } else if !(self.b == *p1) && !(self.b == *p2) {
            Some(self.b)
        } else if !(self.c == *p1) && !(self.c == *p2) {
            Some(self.c)
        } else {
            None
        }
    }

    /// Whether this face shares exactly one edge (two vertices) with `face2`.
    pub fn is_adjacent_to(&self, face2: &Face) -> (r: bool)
        ensures
            r == (shared_vertices_spec(*self, *face2) == 2),
    {
        let mut count: u32 = 0;
        if self.a == face2.a || self.a == face2.b || self.a == face2.c {
            count = count + 1;
        }
        if self.b == face2.a || self.b == face2.b || self.b == face2.c {
            count = count + 1;
        }
        if self.c == face2.a || self.c == face2.b || self.c == face2.c {
            count = count + 1;
        }
        count == 2
    }
}

} // verus!
