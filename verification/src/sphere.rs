//! The finished sphere: seed icosahedron, subdivision of its twenty faces,
//! radial projection, star grouping, angular ordering, tile building and
//! neighbor resolution, composed into one deterministic construction.

use vstd::prelude::*;
use crate::numeric::MAX_COORD;
use crate::point::Point;
use crate::point::project_spec;
use crate::face::Face;
use crate::face::face_ok;
use crate::subdivide::FaceIx;
use crate::subdivide::face_grid_spec;
use crate::subdivide::subdivide_face;
use crate::subdivide::pool_ok;
use crate::subdivide::first_index_spec;
use crate::subdivide::lemma_first_index_at;
use crate::subdivide::lemma_prefix_index;
use crate::sort::sorted_star_spec;
use crate::sort::sort_faces_around_point;
use crate::tile::Tile;
use crate::tile::TileModel;
use crate::tile::tile_spec;
use crate::tile::tile_ok;

verus! {

/// Why a construction cannot be completed: a vertex fell too close to the
/// origin to be projected radially.  This cannot happen for the vertices an
/// icosahedron subdivision actually produces.
#[derive(Clone, Copy, Debug, PartialEq, Eq, Structural)]
pub enum BuildError {
    /// A vertex with no direction at the working precision.
    DegenerateVertex,
}

/// Half the icosahedron edge length, in thousandths of a unit.
pub const ICO_A: i64 = 1_000_000;

/// The golden ratio times `ICO_A`, rounded to the working precision.
pub const ICO_T: i64 = 1_618_034;

/// The twelve corners of the seed icosahedron: the golden-ratio rectangles in
/// the three coordinate planes.
pub open spec fn icosa_corners() -> Seq<Point> {
    seq![
        Point { x: ICO_A, y: ICO_T, z: 0 },
        Point { x: (-ICO_A) as i64, y: ICO_T, z: 0 },
        Point { x: ICO_A, y: (-ICO_T) as i64, z: 0 },
        Point { x: (-ICO_A) as i64, y: (-ICO_T) as i64, z: 0 },
        Point { x: 0, y: ICO_A, z: ICO_T },
        Point { x: 0, y: (-ICO_A) as i64, z: ICO_T },
        Point { x: 0, y: ICO_A, z: (-ICO_T) as i64 },
        Point { x: 0, y: (-ICO_A) as i64, z: (-ICO_T) as i64 },
        Point { x: ICO_T, y: 0, z: ICO_A },
        Point { x: (-ICO_T) as i64, y: 0, z: ICO_A },
        Point { x: ICO_T, y: 0, z: (-ICO_A) as i64 },
        Point { x: (-ICO_T) as i64, y: 0, z: (-ICO_A) as i64 },
    ]
}

/// The twenty faces of the seed icosahedron, as a fixed adjacency table of
/// corner indices.
pub open spec fn icosa_faces() -> Seq<FaceIx> {
    seq![
        FaceIx { a: 0, b: 1, c: 4 },
        FaceIx { a: 1, b: 9, c: 4 },
        FaceIx { a: 4, b: 9, c: 5 },
        FaceIx { a: 5, b: 9, c: 3 },
        FaceIx { a: 2, b: 3, c: 7 },
        FaceIx { a: 3, b: 2, c: 5 },
        FaceIx { a: 7, b: 10, c: 2 },
        FaceIx { a: 0, b: 8, c: 10 },
        FaceIx { a: 0, b: 4, c: 8 },
        FaceIx { a: 8, b: 2, c: 10 },
        FaceIx { a: 8, b: 4, c: 5 },
        FaceIx { a: 8, b: 5, c: 2 },
        FaceIx { a: 1, b: 0, c: 6 },
        FaceIx { a: 11, b: 1, c: 6 },
        FaceIx { a: 3, b: 9, c: 11 },
        FaceIx { a: 6, b: 10, c: 7 },
        FaceIx { a: 3, b: 11, c: 7 },
        FaceIx { a: 11, b: 6, c: 7 },
        FaceIx { a: 6, b: 0, c: 10 },
        FaceIx { a: 9, b: 1, c: 11 },
    ]
}

/// Pool and face list after subdividing the first `k` icosahedron faces into
/// `n` chains each, starting from the pool of the twelve corners.
pub open spec fn subdiv_all(n: int, k: int) -> (Seq<Point>, Seq<FaceIx>)
    decreases k,
{
    if k <= 0 {
        (icosa_corners(), Seq::empty())
    } else {
        let (pl, fs) = subdiv_all(n, k - 1);
        let f = icosa_faces()[k - 1];
        let (pl2, fs2) = face_grid_spec(pl, icosa_corners()[f.a as int],
            icosa_corners()[f.b as int], icosa_corners()[f.c as int], n);
        (pl2, fs + fs2)
    }
}

/// The projections of the first `k` pool points onto the sphere of radius
/// `r`, or nothing when one of them is too close to the origin.
pub open spec fn project_prefix(pool: Seq<Point>, r: int, k: int) -> Option<Seq<Point>>
    decreases k,
{
    if k <= 0 {
        Some(Seq::empty())
    } else {
        match project_prefix(pool, r, k - 1) {
            Option::None => Option::None,
            Option::Some(s) => match project_spec(pool[k - 1], r) {
                Option::None => Option::None,
                Option::Some(p) => Some(s.push(p)),
            },
        }
    }
}

/// Whether `k` is one of the corners of `f`.
pub open spec fn has_corner(f: FaceIx, k: int) -> bool {
    f.a == k || f.b == k || f.c == k
}

/// The indices, among the first `t` faces, of the faces whose corners include
/// the pool point `k`: the vertex star of `k`, in discovery order.
pub open spec fn star_prefix(faces: Seq<FaceIx>, k: int, t: int) -> Seq<usize>
    decreases t,
{
    if t <= 0 {
        Seq::empty()
    } else {
        let s = star_prefix(faces, k, t - 1);
        if has_corner(faces[t - 1], k) {
            s.push((t - 1) as usize)
        } else {
            s
        }
    }
}

/// The faces of a star, materialized with their projected vertices; a face's
/// identifier is its index in the emission order.
pub open spec fn star_faces_spec(faces: Seq<FaceIx>, proj: Seq<Point>, star: Seq<usize>)
    -> Seq<Face> {
    Seq::new(star.len(), |j: int| Face {
        id: star[j],
        a: proj[faces[star[j] as int].a as int],
        b: proj[faces[star[j] as int].b as int],
        c: proj[faces[star[j] as int].c as int],
    })
}

/// The tile built around projected vertex `k`, before neighbor resolution:
/// its star is gathered, ordered by angle, shrunk and wound outward.
pub open spec fn raw_tile_spec(
    faces: Seq<FaceIx>,
    proj: Seq<Point>,
    k: int,
    shrink: int,
) -> TileModel {
    let star = star_prefix(faces, k, faces.len() as int);
    let sf = star_faces_spec(faces, proj, star);
    tile_spec(proj[k], sorted_star_spec(sf, proj[k]), shrink)
}

/// The resolved neighbor indices from the first `j` raw identities: each key
/// becomes the index of the first tile centered on it, keys with no such
/// tile being dropped.
pub open spec fn resolve_keys_spec(centers: Seq<Point>, keys: Seq<Point>, j: int) -> Seq<usize>
    decreases j,
{
    if j <= 0 {
        Seq::empty()
    } else {
        let s = resolve_keys_spec(centers, keys, j - 1);
        if centers.contains(keys[j - 1]) {
            s.push(first_index_spec(centers, keys[j - 1]) as usize)
        } else {
            s
        }
    }
}

/// The finished tile collection for radius `r`, `n` chains per icosahedron
/// edge and shrink `shrink`: one tile per distinct vertex, in pool order,
/// with neighbor identities resolved to indices; or nothing when projection
/// degenerates.
pub open spec fn build_spec(r: int, n: int, shrink: int) -> Option<Seq<TileModel>> {
    let (pool, faces) = subdiv_all(n, 20);
    match project_prefix(pool, r, pool.len() as int) {
        Option::None => Option::None,
        Option::Some(proj) => {
            let raw = Seq::new(proj.len(), |k: int| raw_tile_spec(faces, proj, k, shrink));
            let centers = Seq::new(raw.len(), |k: int| raw[k].center);
            Some(Seq::new(raw.len(), |k: int| TileModel {
                center: raw[k].center,
                boundary: raw[k].boundary,
                neighbor_keys: raw[k].neighbor_keys,
                neighbors: resolve_keys_spec(centers, raw[k].neighbor_keys,
                    raw[k].neighbor_keys.len() as int),
            }))
        },
    }
}

/// The twelve corners, in executable form.
fn icosahedron_corners() -> (v: Vec<Point>)
    ensures
        v@ == icosa_corners(),
        pool_ok(v@),
        v@.len() == 12,
{
    let mut v: Vec<Point> = Vec::new();
    v.push(Point { x: ICO_A, y: ICO_T, z: 0 });
    v.push(Point { x: -ICO_A, y: ICO_T, z: 0 });
    v.push(Point { x: ICO_A, y: -ICO_T, z: 0 });
    v.push(Point { x: -ICO_A, y: -ICO_T, z: 0 });
    v.push(Point { x: 0, y: ICO_A, z: ICO_T });
    v.push(Point { x: 0, y: -ICO_A, z: ICO_T });
    v.push(Point { x: 0, y: ICO_A, z: -ICO_T });
    v.push(Point { x: 0, y: -ICO_A, z: -ICO_T });
    v.push(Point { x: ICO_T, y: 0, z: ICO_A });
    v.push(Point { x: -ICO_T, y: 0, z: ICO_A });
    v.push(Point { x: ICO_T, y: 0, z: -ICO_A });
    v.push(Point { x: -ICO_T, y: 0, z: -ICO_A });
    proof {
        assert(v@ =~= icosa_corners());
    }
    v
}

/// The twenty-face adjacency table, in executable form.
fn icosahedron_face_table() -> (v: Vec<FaceIx>)
    ensures
        v@ == icosa_faces(),
        v@.len() == 20,
        forall|t: int| 0 <= t < 20 ==> (#[trigger] v@[t]).a < 12 && v@[t].b < 12 && v@[t].c < 12,
{
    let mut v: Vec<FaceIx> = Vec::new();
    v.push(FaceIx { a: 0, b: 1, c: 4 });
    v.push(FaceIx { a: 1, b: 9, c: 4 });
    v.push(FaceIx { a: 4, b: 9, c: 5 });
    v.push(FaceIx { a: 5, b: 9, c: 3 });
    v.push(FaceIx { a: 2, b: 3, c: 7 });
    v.push(FaceIx { a: 3, b: 2, c: 5 });
    v.push(FaceIx { a: 7, b: 10, c: 2 });
    v.push(FaceIx { a: 0, b: 8, c: 10 });
    v.push(FaceIx { a: 0, b: 4, c: 8 });
    v.push(FaceIx { a: 8, b: 2, c: 10 });
    v.push(FaceIx { a: 8, b: 4, c: 5 });
    v.push(FaceIx { a: 8, b: 5, c: 2 });
    v.push(FaceIx { a: 1, b: 0, c: 6 });
    v.push(FaceIx { a: 11, b: 1, c: 6 });
    v.push(FaceIx { a: 3, b: 9, c: 11 });
    v.push(FaceIx { a: 6, b: 10, c: 7 });
    v.push(FaceIx { a: 3, b: 11, c: 7 });
    v.push(FaceIx { a: 11, b: 6, c: 7 });
    v.push(FaceIx { a: 6, b: 0, c: 10 });
    v.push(FaceIx { a: 9, b: 1, c: 11 });
    proof {
        assert(v@ =~= icosa_faces());
    }
    v
}

/// Subdivides all twenty icosahedron faces into `n` chains each, over one
/// shared pool seeded with the twelve corners.
fn subdivide_all(n: usize) -> (r: (Vec<Point>, Vec<FaceIx>))
    requires
        1 <= n <= 1000,
    ensures
        (r.0@, r.1@) == subdiv_all(n as int, 20),
        pool_ok(r.0@),
        forall|t: int| 0 <= t < r.1@.len() ==> (#[trigger] r.1@[t]).a < r.0@.len()
            && r.1@[t].b < r.0@.len() && r.1@[t].c < r.0@.len(),
{
    let table = icosahedron_face_table();
    let corners = icosahedron_corners();
    let mut points: Vec<Point> = icosahedron_corners();
    let mut faces: Vec<FaceIx> = Vec::new();
    proof {
        assert(faces@ =~= subdiv_all(n as int, 0).1);
    }
    let mut k: usize = 0;
    while k < 20
        invariant
            k <= 20,
            1 <= n <= 1000,
            table@ == icosa_faces(),
            corners@ == icosa_corners(),
            table@.len() == 20,
            corners@.len() == 12,
            pool_ok(corners@),
            forall|t: int| 0 <= t < 20 ==> (#[trigger] table@[t]).a < 12
                && table@[t].b < 12 && table@[t].c < 12,
            (points@, faces@) == subdiv_all(n as int, k as int),
            pool_ok(points@),
            forall|t: int| 0 <= t < faces@.len() ==> (#[trigger] faces@[t]).a < points@.len()
                && faces@[t].b < points@.len() && faces@[t].c < points@.len(),
        decreases 20 - k,
    {
        let f = table[k];
        let ghost pre = points@;
        let ghost fpre = faces@;
        let pa = corners[f.a];
        let pb = corners[f.b];
        let pc = corners[f.c];
        subdivide_face(&pa, &pb, &pc, n, &mut points, &mut faces);
        proof {
            lemma_prefix_index(pre, points@);
            assert forall|t: int| 0 <= t < faces@.len() implies
                (#[trigger] faces@[t]).a < points@.len()
                && faces@[t].b < points@.len() && faces@[t].c < points@.len() by {
                if t < fpre.len() {
                    assert(faces@[t] == fpre[t]);
                }
            }
            assert((points@, faces@) == subdiv_all(n as int, k + 1));
        }
        k = k + 1;
    }
    (points, faces)
}

/// Projects every pool point onto the sphere of radius `radius`, or reports
/// the first point too close to the origin to be projected.
fn project_all(pool: &Vec<Point>, radius: i64) -> (r: Result<Vec<Point>, BuildError>)
    requires
        pool_ok(pool@),
        1 <= radius <= MAX_COORD,
    ensures
        match r {
            Ok(proj) => project_prefix(pool@, radius as int, pool@.len() as int)
                == Some(proj@) && proj@.len() == pool@.len() && pool_ok(proj@),
            Err(e) => project_prefix(pool@, radius as int, pool@.len() as int) is None
                && e == BuildError::DegenerateVertex,
        },
{
    let n = pool.len();
    let mut out: Vec<Point> = Vec::new();
    let mut k: usize = 0;
    while k < n
        invariant
            k <= n,
            n == pool@.len(),
            pool_ok(pool@),
            1 <= radius <= MAX_COORD,
            project_prefix(pool@, radius as int, k as int) == Some(out@),
            out@.len() == k,
            pool_ok(out@),
        decreases n - k,
    {
        match pool[k].project(radius) {
            Some(p) => {
                out.push(p);
            },
            None => {
                proof {
                    assert(project_prefix(pool@, radius as int, k + 1) is None);
                    lemma_project_none(pool@, radius as int, k + 1, n as int);
                }
                return Err(BuildError::DegenerateVertex);
            },
        }
        k = k + 1;
    }
    Ok(out)
}

/// Once a prefix fails to project, every longer prefix fails too.
proof fn lemma_project_none(pool: Seq<Point>, r: int, k: int, m: int)
    requires
        0 <= k <= m,
        project_prefix(pool, r, k) is None,
    ensures
        project_prefix(pool, r, m) is None,
    decreases m - k,
{
    if k < m {
        lemma_project_none(pool, r, k + 1, m);
    }
}

/// The faces whose corners include pool point `k`, in discovery order.
fn build_star(faces: &Vec<FaceIx>, k: usize) -> (out: Vec<usize>)
    ensures
        out@ == star_prefix(faces@, k as int, faces@.len() as int),
        forall|j: int| 0 <= j < out@.len() ==> #[trigger] out@[j] < faces@.len(),
{
    let n = faces.len();
    let mut out: Vec<usize> = Vec::new();
    let mut t: usize = 0;
    while t < n
        invariant
            t <= n,
            n == faces@.len(),
            out@ == star_prefix(faces@, k as int, t as int),
            forall|j: int| 0 <= j < out@.len() ==> #[trigger] out@[j] < t,
        decreases n - t,
    {
        let f = faces[t];
        if f.a == k || f.b == k || f.c == k {
            out.push(t);
        }
        t = t + 1;
    }
    out
}

/// The index of the first occurrence of `p` in `v`, if any.
pub fn find_point(v: &Vec<Point>, p: &Point) -> (r: Option<usize>)
    ensures
        match r {
            Some(i) => v@.contains(*p) && i < v@.len()
                && i as int == first_index_spec(v@, *p),
            None => !v@.contains(*p),
        },
{
    let n = v.len();
    let mut i: usize = 0;
    while i < n
        invariant
            i <= n,
            n == v@.len(),
            forall|j: int| 0 <= j < i ==> v@[j] != *p,
        decreases n - i,
    {
        if v[i] == *p {
            proof {
                lemma_first_index_at(v@, *p, i as int);
            }
            return Some(i);
        }
        i = i + 1;
    }
    None
}

/// The projected counterpart of a pre-projection point: the point at the same
/// position in the projected collection as the first occurrence of `original`
/// in the pre-projection pool, or nothing when the point is unknown.
pub open spec fn find_projected_spec(original: Point, pool: Seq<Point>, proj: Seq<Point>)
    -> Option<Point> {
    if pool.contains(original) && first_index_spec(pool, original) < proj.len() {
        Some(proj[first_index_spec(pool, original)])
    } else {
        None
    }
}

/// Resolves a pre-projection point to its projected counterpart by its stable
/// pool identity: projection preserves the pool order, so the counterpart
/// sits at the same index.
pub fn find_projected_point(
    original: &Point,
    points: &Vec<Point>,
    projected: &Vec<Point>,
) -> (r: Option<Point>)
    ensures
        r == find_projected_spec(*original, points@, projected@),
{
    match find_point(points, original) {
        Some(i) => {
            if i < projected.len() {
                Some(projected[i])
            } else {
                None
            }
        },
        None => None,
    }
}

/// Resolves raw neighbor identities to tile indices: each key becomes the
/// index of the first tile centered on it; keys that match no tile are
/// dropped rather than failing.
fn resolve_keys(centers: &Vec<Point>, keys: &Vec<Point>) -> (out: Vec<usize>)
    ensures
        out@ == resolve_keys_spec(centers@, keys@, keys@.len() as int),
        forall|j: int| 0 <= j < out@.len() ==> #[trigger] out@[j] < centers@.len(),
{
    let n = keys.len();
    let mut out: Vec<usize> = Vec::new();
    let mut j: usize = 0;
    while j < n
        invariant
            j <= n,
            n == keys@.len(),
            out@ == resolve_keys_spec(centers@, keys@, j as int),
            forall|t: int| 0 <= t < out@.len() ==> #[trigger] out@[t] < centers@.len(),
        decreases n - j,
    {
        match find_point(centers, &keys[j]) {
            Some(i) => {
                proof {
                    crate::subdivide::lemma_first_index_props(centers@, keys@[j as int]);
                }
                out.push(i);
            },
            None => {},
        }
        j = j + 1;
    }
    out
}

/// The finished sphere: its radius and the full, linked tile collection.
#[derive(Clone, Debug, PartialEq)]
pub struct Hexasphere {
    /// The radius of the sphere the tiles approximate, in thousandths.
    pub radius: i64,
    /// All tiles, hexagons and exactly twelve pentagons, in vertex order.
    pub tiles: Vec<Tile>,
}

/// The mathematical value of a finished sphere.
pub struct HexModel {
    pub radius: int,
    pub tiles: Seq<TileModel>,
}

impl View for Hexasphere {
    type V = HexModel;

    open spec fn view(&self) -> HexModel {
        HexModel {
            radius: self.radius as int,
            tiles: Seq::new(self.tiles@.len(), |i: int| self.tiles@[i]@),
        }
    }
}

impl Hexasphere {
    /// Builds the sphere of radius `radius` (in thousandths of a unit) by
    /// subdividing each icosahedron edge into `num_divisions` chains and
    /// dualizing, tile corners pulled toward their centers by `hex_size`
    /// thousandths (clamped to one percent through one).  The construction
    /// is deterministic: the result is a function of the three arguments
    /// alone.  It fails only when a vertex cannot be projected, which no
    /// icosahedron subdivision actually produces.
    pub fn new(radius: i64, num_divisions: usize, hex_size: i64) -> (r: Result<
        Hexasphere,
        BuildError,
    >)
        requires
            1 <= radius <= MAX_COORD,
            1 <= num_divisions <= 1000,
        ensures
            match r {
                Ok(h) => {
                    &&& build_spec(radius as int, num_divisions as int, hex_size as int)
                        == Some(h@.tiles)
                    &&& h@.radius == radius as int
                    &&& forall|i: int| 0 <= i < h@.tiles.len()
                        ==> tile_ok(#[trigger] h@.tiles[i])
                },
                Err(e) => {
                    &&& build_spec(radius as int, num_divisions as int, hex_size as int)
                        is None
                    &&& e == BuildError::DegenerateVertex
                },
            },
    {
        let (points, faces) = subdivide_all(num_divisions);
        let proj = match project_all(&points, radius) {
            Ok(p) => p,
            Err(e) => {
                return Err(e);
            },
        };
        let ghost faces_g = faces@;
        let ghost proj_g = proj@;
        let n = proj.len();
        let mut tiles: Vec<Tile> = Vec::new();
        let mut k: usize = 0;
        while k < n
            invariant
                k <= n,
                n == proj@.len(),
                proj@ == proj_g,
                faces@ == faces_g,
                n == points@.len(),
                pool_ok(proj@),
                pool_ok(points@),
                1 <= radius <= MAX_COORD,
                forall|t: int| 0 <= t < faces@.len() ==> (#[trigger] faces@[t]).a < n
                    && faces@[t].b < n && faces@[t].c < n,
                tiles@.len() == k,
                forall|i: int| 0 <= i < k ==> (#[trigger] tiles@[i])@ == (TileModel {
                    center: raw_tile_spec(faces_g, proj_g, i, hex_size as int).center,
                    boundary: raw_tile_spec(faces_g, proj_g, i, hex_size as int).boundary,
                    neighbor_keys: raw_tile_spec(faces_g, proj_g, i,
                        hex_size as int).neighbor_keys,
                    neighbors: resolve_keys_spec(proj_g,
                        raw_tile_spec(faces_g, proj_g, i, hex_size as int).neighbor_keys,
                        raw_tile_spec(faces_g, proj_g, i,
                            hex_size as int).neighbor_keys.len() as int),
                }),
                forall|i: int| 0 <= i < k ==> tile_ok((#[trigger] tiles@[i])@),
            decreases n - k,
        {
            let star = build_star(&faces, k);
            let m = star.len();
            let mut sf: Vec<Face> = Vec::new();
            let mut j: usize = 0;
            while j < m
                invariant
                    j <= m,
                    m == star@.len(),
                    n == proj@.len(),
                    pool_ok(proj@),
                    forall|t: int| 0 <= t < star@.len() ==> #[trigger] star@[t] < faces@.len(),
                    forall|t: int| 0 <= t < faces@.len() ==> (#[trigger] faces@[t]).a < n
                        && faces@[t].b < n && faces@[t].c < n,
                    sf@ == star_faces_spec(faces@, proj@, star@).take(j as int),
                    forall|t: int| 0 <= t < sf@.len() ==> face_ok(#[trigger] sf@[t]),
                decreases m - j,
            {
                let fi = star[j];
                let fx = faces[fi];
                sf.push(Face { id: fi, a: proj[fx.a], b: proj[fx.b], c: proj[fx.c] });
                proof {
                    assert(sf@ =~= star_faces_spec(faces@, proj@, star@).take(j + 1));
                }
                j = j + 1;
            }
            proof {
                assert(sf@ =~= star_faces_spec(faces@, proj@, star@));
            }
            let center: Point = proj[k];
            sort_faces_around_point(&mut sf, &center);
            let mut t = Tile::new(center, &sf, hex_size);
            let ns = resolve_keys(&proj, &t.neighbor_keys);
            t.neighbors = ns;
            proof {
                assert(t@.boundary == raw_tile_spec(faces_g, proj_g, k as int,
                    hex_size as int).boundary);
                assert(t@.neighbor_keys == raw_tile_spec(faces_g, proj_g, k as int,
                    hex_size as int).neighbor_keys);
            }
            tiles.push(t);
            k = k + 1;
        }
        let h = Hexasphere { radius, tiles };
        proof {
            let r_i = radius as int;
            let n_i = num_divisions as int;
            let s_i = hex_size as int;
            let raw = Seq::new(proj_g.len(), |i: int| raw_tile_spec(faces_g, proj_g, i, s_i));
            let centers = Seq::new(raw.len(), |i: int| raw[i].center);
            assert(centers =~= proj_g);
            assert(h@.tiles =~= build_spec(r_i, n_i, s_i)->Some_0);
        }
        Ok(h)
    }
}

/// Two to the power `d`.
pub open spec fn pow2_spec(d: int) -> int
    decreases d,
{
    if d <= 0 {
        1
    } else {
        2 * pow2_spec(d - 1)
    }
}

/// Small powers of two are small.
pub proof fn lemma_pow2_bound(d: int)
    requires
        0 <= d <= 8,
    ensures
        1 <= pow2_spec(d) <= 256,
{
    reveal_with_fuel(pow2_spec, 10);
    assert(pow2_spec(0) == 1 && pow2_spec(1) == 2 && pow2_spec(2) == 4 && pow2_spec(3) == 8
        && pow2_spec(4) == 16 && pow2_spec(5) == 32 && pow2_spec(6) == 64
        && pow2_spec(7) == 128 && pow2_spec(8) == 256);
}

/// The one entry point of the construction by depth: each icosahedron edge
/// is split into two-to-the-`subdivision_depth` chains, so the sphere has
/// `10 * 4^depth + 2` tiles, and the tile corners are pulled toward their
/// centers by `hex_shrink` thousandths (clamped to one percent through one).
pub fn construct(radius: i64, subdivision_depth: u32, hex_shrink: i64) -> (r: Result<
    Hexasphere,
    BuildError,
>)
    requires
        1 <= radius <= MAX_COORD,
        subdivision_depth <= 8,
    ensures
        match r {
            Ok(h) => {
                &&& build_spec(radius as int, pow2_spec(subdivision_depth as int),
                    hex_shrink as int) == Some(h@.tiles)
                &&& h@.radius == radius as int
                &&& forall|i: int| 0 <= i < h@.tiles.len()
                    ==> tile_ok(#[trigger] h@.tiles[i])
            },
            Err(e) => {
                &&& build_spec(radius as int, pow2_spec(subdivision_depth as int),
                    hex_shrink as int) is None
                &&& e == BuildError::DegenerateVertex
            },
        },
{
    let mut divisions: usize = 1;
    let mut d: u32 = 0;
    while d < subdivision_depth
        invariant
            d <= subdivision_depth <= 8,
            divisions as int == pow2_spec(d as int),
            1 <= divisions <= 256,
        decreases subdivision_depth - d,
    {
        proof {
            lemma_pow2_bound(d as int);
        }
        divisions = divisions * 2;
        d = d + 1;
        proof {
            lemma_pow2_bound(d as int);
        }
    }
    Hexasphere::new(radius, divisions, hex_shrink)
}

} // verus!
