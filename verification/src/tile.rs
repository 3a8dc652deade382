//! Tiles of the dual tessellation: one polygonal tile per projected vertex,
//! with its corners at the (shrunken) centroids of the faces around the
//! vertex, raw neighbor identities, and, after resolution, neighbor indices.

use vstd::prelude::*;
use crate::numeric::round_div;
use crate::numeric::round_div_spec;
use crate::numeric::lemma_round_div_exact;
use crate::point::Point;
use crate::point::pt_ok;
use crate::point::segment_spec;
use crate::point::dist_spec;
use crate::face::Face;
use crate::face::face_ok;
use crate::face::face_centroid_spec;
use crate::face::other_points_spec;
use crate::math::surface_normal_spec;
use crate::math::away_spec;
use crate::math::calculate_surface_normal;
use crate::math::pointing_away_from_origin;

verus! {

/// A polygonal tile: its center (a projected vertex), its ordered boundary,
/// the canonical center points of its neighbors, and, once resolved, their
/// indices in the owning collection.
#[derive(Clone, Debug, PartialEq)]
pub struct Tile {
    /// The projected vertex this tile is built around.
    pub center_point: Point,
    /// The corners of the tile, in winding order.
    pub boundary: Vec<Point>,
    /// Canonical center points of the neighboring tiles, before resolution.
    pub neighbor_keys: Vec<Point>,
    /// Indices of the neighboring tiles, after resolution.
    pub neighbors: Vec<usize>,
}

/// The mathematical value of a tile.
pub struct TileModel {
    pub center: Point,
    pub boundary: Seq<Point>,
    pub neighbor_keys: Seq<Point>,
    pub neighbors: Seq<usize>,
}

impl View for Tile {
    type V = TileModel;

    open spec fn view(&self) -> TileModel {
        TileModel {
            center: self.center_point,
            boundary: self.boundary@,
            neighbor_keys: self.neighbor_keys@,
            neighbors: self.neighbors@,
        }
    }
}

/// Center and every boundary and neighbor point within the coordinate cap.
pub open spec fn tile_ok(t: TileModel) -> bool {
    &&& pt_ok(t.center)
    &&& forall|i: int| 0 <= i < t.boundary.len() ==> pt_ok(#[trigger] t.boundary[i])
    &&& forall|i: int| 0 <= i < t.neighbor_keys.len() ==> pt_ok(#[trigger] t.neighbor_keys[i])
}

/// One corner of the tile around `center`: the centroid of face `f`, pulled
/// a fraction `h` of a thousand of the way out from the center.
pub open spec fn boundary_point_spec(center: Point, f: Face, h: int) -> Point {
    segment_spec(center, face_centroid_spec(f), h)
}

/// At full shrink a corner is exactly the face centroid, whichever tile it
/// belongs to: adjacent tiles that share the face share the corner.
pub proof fn lemma_full_shrink_corner_is_centroid(center: Point, f: Face)
    ensures
        boundary_point_spec(center, f, 1000) == face_centroid_spec(f),
{
    let t = face_centroid_spec(f);
    lemma_round_div_exact(t.x as int, 1000);
    lemma_round_div_exact(t.y as int, 1000);
    lemma_round_div_exact(t.z as int, 1000);
    assert(center.x * 0 == 0 && center.y * 0 == 0 && center.z * 0 == 0) by (nonlinear_arith);
    assert(t.x * 1000 == (t.x as int) * 1000 && t.y * 1000 == (t.y as int) * 1000
        && t.z * 1000 == (t.z as int) * 1000);
}

/// The unfixed boundary: one corner per face of the sorted star, in order.
pub open spec fn boundary_spec(center: Point, faces: Seq<Face>, h: int) -> Seq<Point> {
    Seq::new(faces.len(), |i: int| boundary_point_spec(center, faces[i], h))
}

/// Appends `p` unless it is already present.
pub open spec fn add_unique(s: Seq<Point>, p: Point) -> Seq<Point> {
    if s.contains(p) {
        s
    } else {
        s.push(p)
    }
}

/// Appends every entry of `others`, first occurrences only.
pub open spec fn add_all_unique(s: Seq<Point>, others: Seq<Point>) -> Seq<Point>
    decreases others.len(),
{
    if others.len() == 0 {
        s
    } else {
        add_all_unique(add_unique(s, others[0]), others.drop_first())
    }
}

/// The deduplicated raw neighbor identities gathered from the first `k`
/// faces: from each face, its vertices other than the tile center.
pub open spec fn neighbor_keys_spec(center: Point, faces: Seq<Face>, k: int) -> Seq<Point>
    decreases k,
{
    if k <= 0 {
        Seq::empty()
    } else {
        add_all_unique(neighbor_keys_spec(center, faces, k - 1),
            other_points_spec(faces[k - 1], center))
    }
}

/// The boundary after the orientation fix: reversed when the normal of its
/// leading corners does not face outward.
pub open spec fn fixed_boundary_spec(center: Point, bnd: Seq<Point>) -> Seq<Point> {
    if bnd.len() >= 3
        && !away_spec(center, surface_normal_spec(bnd[1], bnd[2], bnd[0])) {
        bnd.reverse()
    } else {
        bnd
    }
}

/// The whole tile built from a sorted star: corners from the face centroids
/// at shrink `h` (clamped to one percent through one), the orientation fix,
/// and the raw neighbor identities; neighbor indices stay empty until
/// resolution.
pub open spec fn tile_spec(center: Point, faces: Seq<Face>, h: int) -> TileModel {
    let hc = if h < 10 {
        10int
    } else if h > 1000 {
        1000int
    } else {
        h
    };
    TileModel {
        center,
        boundary: fixed_boundary_spec(center, boundary_spec(center, faces, hc)),
        neighbor_keys: neighbor_keys_spec(center, faces, faces.len() as int),
        neighbors: Seq::empty(),
    }
}

/// Whether `v` holds `p`, by linear scan.
pub fn contains_point(v: &Vec<Point>, p: &Point) -> (r: bool)
    ensures
        r == v@.contains(*p),
{
    let n = v.len();
    let mut i: usize = 0;
    while i < n
        invariant
            i <= n,
            n == v@.len(),
            forall|j: int| 0 <= j < i ==> v@[j] != *p,
        decreases n - i,
    {
        if v[i] == *p {
            return true;
        }
        i = i + 1;
    }
    false
}

impl Tile {
    /// Builds the tile around `center_point` from its star of faces, already
    /// in angular order, with shrink `hex_size` in thousandths (clamped to
    /// one percent through one).
    pub fn new(center_point: Point, faces: &Vec<Face>, hex_size: i64) -> (r: Tile)
        requires
            pt_ok(center_point),
            forall|t: int| 0 <= t < faces@.len() ==> face_ok(#[trigger] faces@[t]),
        ensures
            r@ == tile_spec(center_point, faces@, hex_size as int),
            tile_ok(r@),
            r@.boundary.len() == faces@.len(),
    {
        let h: i64 = if hex_size < 10 {
            10
        } else if hex_size > 1000 {
            1000
        } else {
            hex_size
        };
        let n = faces.len();
        let mut boundary: Vec<Point> = Vec::new();
        let mut keys: Vec<Point> = Vec::new();
        proof {
            assert(boundary@ =~= boundary_spec(center_point, faces@, h as int).take(0));
        }
        let mut i: usize = 0;
        while i < n
            invariant
                i <= n,
                n == faces@.len(),
                pt_ok(center_point),
                10 <= h <= 1000,
                forall|t: int| 0 <= t < faces@.len() ==> face_ok(#[trigger] faces@[t]),
                boundary@ == boundary_spec(center_point, faces@, h as int).take(i as int),
                keys@ == neighbor_keys_spec(center_point, faces@, i as int),
                forall|t: int| 0 <= t < boundary@.len() ==> pt_ok(#[trigger] boundary@[t]),
                forall|t: int| 0 <= t < keys@.len() ==> pt_ok(#[trigger] keys@[t]),
            decreases n - i,
        {
            let f = faces[i];
            let centroid = f.get_centroid();
            boundary.push(center_point.segment(&centroid, h));
            proof {
                assert(boundary@ =~= boundary_spec(center_point, faces@, h as int)
                    .take(i + 1));
            }
            let others = f.get_other_points(&center_point);
            let ghost keys_pre = keys@;
            let m = others.len();
            let mut j: usize = 0;
            while j < m
                invariant
                    j <= m,
                    m == others@.len(),
                    forall|t: int| 0 <= t < others@.len() ==> pt_ok(#[trigger] others@[t]),
                    forall|t: int| 0 <= t < keys@.len() ==> pt_ok(#[trigger] keys@[t]),
                    keys@ == add_all_unique(keys_pre, others@.take(j as int)),
                decreases m - j,
            {
                let ghost before = keys@;
                if !contains_point(&keys, &others[j]) {
                    keys.push(others[j]);
                }
                proof {
                    assert(keys@ == add_unique(before, others@[j as int]));
                    assert(others@.take(j + 1) =~= others@.take(j as int).push(others@[j as int]));
                    lemma_add_all_unique_push(keys_pre, others@.take(j as int), others@[j as int]);
                }
                j = j + 1;
            }
            proof {
                assert(others@.take(m as int) =~= others@);
                assert(keys@ == neighbor_keys_spec(center_point, faces@, i + 1));
            }
            i = i + 1;
        }
        proof {
            assert(boundary_spec(center_point, faces@, h as int).take(n as int)
                =~= boundary_spec(center_point, faces@, h as int));
        }
        if boundary.len() >= 3 {
            let normal = calculate_surface_normal(&boundary[1], &boundary[2], &boundary[0]);
            if !pointing_away_from_origin(&center_point, &normal) {
                let mut rev: Vec<Point> = Vec::new();
                let len = boundary.len();
                let mut k: usize = 0;
                while k < len
                    invariant
                        k <= len,
                        len == boundary@.len(),
                        rev@.len() == k,
                        forall|t: int| 0 <= t < k
                            ==> #[trigger] rev@[t] == boundary@[len - 1 - t],
                    decreases len - k,
                {
                    rev.push(boundary[len - 1 - k]);
                    k = k + 1;
                }
                proof {
                    assert(rev@ =~= boundary@.reverse());
                }
                boundary = rev;
            }
        }
        let r = Tile {
            center_point,
            boundary,
            neighbor_keys: keys,
            neighbors: Vec::new(),
        };
        proof {
            assert(r@.boundary == fixed_boundary_spec(center_point,
                boundary_spec(center_point, faces@, h as int)));
        }
        r
    }

    /// Whether this tile has six corners.
    pub fn is_hexagon(&self) -> (r: bool)
        ensures
            r == (self@.boundary.len() == 6),
    {
        self.boundary.len() == 6
    }

    /// Whether this tile has five corners.
    pub fn is_pentagon(&self) -> (r: bool)
        ensures
            r == (self@.boundary.len() == 5),
    {
        self.boundary.len() == 5
    }

    /// The boundary scaled toward the center: each corner a fraction `scale`
    /// of a thousand of the way from the center to its original place.
    pub fn scaled_boundary(&self, scale: i64) -> (r: Vec<Point>)
        requires
            tile_ok(self@),
        ensures
            r@.len() == self@.boundary.len(),
            forall|i: int| 0 <= i < r@.len() ==> #[trigger] r@[i]
                == segment_spec(self@.center, self@.boundary[i], scale as int),
    {
        let n = self.boundary.len();
        let mut out: Vec<Point> = Vec::new();
        let mut i: usize = 0;
        while i < n
            invariant
                i <= n,
                n == self@.boundary.len(),
                tile_ok(self@),
                out@.len() == i,
                forall|t: int| 0 <= t < i ==> #[trigger] out@[t]
                    == segment_spec(self@.center, self@.boundary[t], scale as int),
            decreases n - i,
        {
            out.push(self.center_point.segment(&self.boundary[i], scale));
            i = i + 1;
        }
        out
    }

    /// The average distance from the center to the corners, in thousandths
    /// of a unit, rounded; zero for an empty boundary.
    pub fn get_average_radius(&self) -> (r: i64)
        requires
            tile_ok(self@),
            self@.boundary.len() <= 100_000,
        ensures
            r as int == avg_radius_spec(self@),
    {
        let n = self.boundary.len();
        if n == 0 {
            return 0;
        }
        let mut total: i64 = 0;
        let mut i: usize = 0;
        while i < n
            invariant
                i <= n,
                n == self@.boundary.len(),
                n <= 100_000,
                tile_ok(self@),
                total as int == dist_sum(self@.center, self@.boundary, i as int),
                0 <= total <= i * 60_000_000,
            decreases n - i,
        {
            let d = self.center_point.distance_to(&self.boundary[i]);
            proof {
                lemma_dist_small(self@.center, self@.boundary[i as int]);
            }
            total = total + d;
            i = i + 1;
        }
        round_div(total, n as u64)
    }

    /// The average length of the boundary edges, consecutive corners with
    /// wraparound, in thousandths of a unit, rounded; zero with fewer than
    /// two corners.
    pub fn get_average_edge_length(&self) -> (r: i64)
        requires
            tile_ok(self@),
            self@.boundary.len() <= 100_000,
        ensures
            r as int == avg_edge_spec(self@),
    {
        let n = self.boundary.len();
        if n < 2 {
            return 0;
        }
        let mut total: i64 = 0;
        let mut i: usize = 0;
        while i < n
            invariant
                2 <= n,
                i <= n,
                n == self@.boundary.len(),
                n <= 100_000,
                tile_ok(self@),
                total as int == edge_sum(self@.boundary, i as int),
                0 <= total <= i * 60_000_000,
            decreases n - i,
        {
            let next = if i + 1 == n { 0 } else { i + 1 };
            let d = self.boundary[i].distance_to(&self.boundary[next]);
            proof {
                lemma_dist_small(self@.boundary[i as int], self@.boundary[next as int]);
            }
            total = total + d;
            i = i + 1;
        }
        round_div(total, n as u64)
    }
}

/// The sum of the distances from `center` to the first `k` corners.
pub open spec fn dist_sum(center: Point, bnd: Seq<Point>, k: int) -> int
    decreases k,
{
    if k <= 0 {
        0
    } else {
        dist_sum(center, bnd, k - 1) + dist_spec(center, bnd[k - 1])
    }
}

/// The sum of the lengths of the first `k` boundary edges, each edge running
/// to the next corner, the last wrapping around to the first.
pub open spec fn edge_sum(bnd: Seq<Point>, k: int) -> int
    decreases k,
{
    if k <= 0 {
        0
    } else {
        let next = if k == bnd.len() { 0int } else { k };
        edge_sum(bnd, k - 1) + dist_spec(bnd[k - 1], bnd[next])
    }
}

/// The average center-to-corner distance of a tile, rounded.
pub open spec fn avg_radius_spec(t: TileModel) -> int {
    if t.boundary.len() == 0 {
        0
    } else {
        round_div_spec(dist_sum(t.center, t.boundary, t.boundary.len() as int),
            t.boundary.len() as int)
    }
}

/// The average boundary edge length of a tile, rounded.
pub open spec fn avg_edge_spec(t: TileModel) -> int {
    if t.boundary.len() < 2 {
        0
    } else {
        round_div_spec(edge_sum(t.boundary, t.boundary.len() as int),
            t.boundary.len() as int)
    }
}

/// The distance between two capped points is under sixty million thousandths.
proof fn lemma_dist_small(p: Point, q: Point)
    requires
        pt_ok(p),
        pt_ok(q),
    ensures
        0 <= dist_spec(p, q) <= 60_000_000,
{
    let d2 = (p.x - q.x) * (p.x - q.x) + (p.y - q.y) * (p.y - q.y)
        + (p.z - q.z) * (p.z - q.z);
    crate::numeric::lemma_mul_bound(p.x - q.x, p.x - q.x, 20_000_000, 20_000_000);
    crate::numeric::lemma_mul_bound(p.y - q.y, p.y - q.y, 20_000_000, 20_000_000);
    crate::numeric::lemma_mul_bound(p.z - q.z, p.z - q.z, 20_000_000, 20_000_000);
    assert(0 <= (p.x - q.x) * (p.x - q.x)) by (nonlinear_arith);
    assert(0 <= (p.y - q.y) * (p.y - q.y)) by (nonlinear_arith);
    assert(0 <= (p.z - q.z) * (p.z - q.z)) by (nonlinear_arith);
    crate::numeric::lemma_isqrt_bounds(4 * d2);
    let s = crate::numeric::isqrt_spec(4 * d2);
    assert(s <= 119_999_999) by {
        if s >= 120_000_000 {
            assert(s * s >= 120_000_000 * 120_000_000) by (nonlinear_arith)
                requires s >= 120_000_000;
        }
    }
}

/// Appending one more entry to the unique-append fold.
proof fn lemma_add_all_unique_push(s: Seq<Point>, o: Seq<Point>, p: Point)
    ensures
        add_all_unique(s, o.push(p)) == add_unique(add_all_unique(s, o), p),
    decreases o.len(),
{
    if o.len() == 0 {
        assert(o.push(p)[0] == p);
        assert(o.push(p).drop_first() =~= Seq::<Point>::empty());
        assert(add_all_unique(s, o.push(p))
            == add_all_unique(add_unique(s, p), o.push(p).drop_first()));
        assert(add_all_unique(add_unique(s, p), Seq::<Point>::empty()) == add_unique(s, p));
    } else {
        assert(o.push(p)[0] == o[0]);
        assert(o.push(p).drop_first() =~= o.drop_first().push(p));
        lemma_add_all_unique_push(add_unique(s, o[0]), o.drop_first(), p);
    }
}

} // verus!
