//! General properties of the construction, stated and proved once for all
//! inputs.

use vstd::prelude::*;
use crate::point::Point;
use crate::face::Face;
use crate::face::face_centroid_spec;
use crate::math::away_spec;
use crate::math::surface_normal_spec;
use crate::tile::boundary_point_spec;
use crate::tile::fixed_boundary_spec;
use crate::tile::lemma_full_shrink_corner_is_centroid;
use crate::subdivide::first_index_spec;
use crate::subdivide::no_dup;
use crate::sphere::find_projected_spec;
use crate::sphere::Hexasphere;
use crate::sphere::build_spec;
use crate::sphere::subdiv_all;
use crate::sphere::project_prefix;
use crate::sphere::star_prefix;
use crate::sphere::star_faces_spec;
use crate::sphere::resolve_keys_spec;
use crate::subdivide::face_grid_spec;
use crate::sort::sorted_star_spec;
use crate::sort::lemma_isort_permutes;
use crate::sort::lemma_isort_sorted;
use crate::sort::sorted_by_angle;
use crate::sort::star_frame;

verus! {

/// At full shrink, two tiles that touch a common face place their corner for
/// that face at numerically the same point — the face's centroid — whatever
/// their centers are, so adjacent tiles share their edges exactly.
pub proof fn lemma_shared_corner_at_full_shrink(center1: Point, center2: Point, f: Face)
    ensures
        boundary_point_spec(center1, f, 1000) == boundary_point_spec(center2, f, 1000),
        boundary_point_spec(center1, f, 1000) == face_centroid_spec(f),
{
    lemma_full_shrink_corner_is_centroid(center1, f);
    lemma_full_shrink_corner_is_centroid(center2, f);
}

/// Two constructions from identical radius, division count and shrink yield
/// identical spheres: tile order, boundary coordinates and neighbor indices
/// all agree.
pub proof fn lemma_construction_deterministic(
    h1: Hexasphere,
    h2: Hexasphere,
    r: int,
    n: int,
    shrink: int,
)
    requires
        build_spec(r, n, shrink) == Some(h1@.tiles),
        build_spec(r, n, shrink) == Some(h2@.tiles),
        h1@.radius == r,
        h2@.radius == r,
    ensures
        h1@ == h2@,
{
}

/// A successful projection projects every pool point: the lengths agree.
pub proof fn lemma_project_prefix_len(pool: Seq<Point>, r: int, k: int)
    requires
        0 <= k,
        project_prefix(pool, r, k) is Some,
    ensures
        project_prefix(pool, r, k)->Some_0.len() == k,
    decreases k,
{
    if k > 0 {
        lemma_project_prefix_len(pool, r, k - 1);
    }
}

/// The dual construction yields exactly one tile per distinct subdivision
/// vertex: the tile count equals the size of the deduplicated point pool.
pub proof fn lemma_one_tile_per_vertex(r: int, n: int, shrink: int)
    requires
        build_spec(r, n, shrink) is Some,
    ensures
        build_spec(r, n, shrink)->Some_0.len() == subdiv_all(n, 20).0.len(),
{
    let pool = subdiv_all(n, 20).0;
    lemma_project_prefix_len(pool, r, pool.len() as int);
}

/// Every tile has exactly one boundary corner per face of its vertex star:
/// ordering the star and fixing the winding change no lengths.
pub proof fn lemma_boundary_counts_star(r: int, n: int, shrink: int, k: int)
    requires
        build_spec(r, n, shrink) is Some,
        0 <= k < build_spec(r, n, shrink)->Some_0.len(),
    ensures
        build_spec(r, n, shrink)->Some_0[k].boundary.len()
            == star_prefix(subdiv_all(n, 20).1, k, subdiv_all(n, 20).1.len() as int).len(),
{
    let faces = subdiv_all(n, 20).1;
    let pool = subdiv_all(n, 20).0;
    let proj = project_prefix(pool, r, pool.len() as int)->Some_0;
    let star = star_prefix(faces, k, faces.len() as int);
    let sf = star_faces_spec(faces, proj, star);
    let sorted = sorted_star_spec(sf, proj[k]);
    if sf.len() > 2 {
        let (right, fwd) = star_frame(proj[k], sf[0]);
        lemma_isort_permutes(proj[k], right, fwd, sf);
    }
    let hc = if shrink < 10 {
        10int
    } else if shrink > 1000 {
        1000int
    } else {
        shrink
    };
    let bnd = crate::tile::boundary_spec(proj[k], sorted, hc);
    assert(fixed_boundary_spec(proj[k], bnd).len() == bnd.len());
}

/// Every resolved index points into the collection it was resolved against.
proof fn lemma_resolve_keys_in_range(centers: Seq<Point>, keys: Seq<Point>, j: int)
    requires
        centers.len() <= usize::MAX,
    ensures
        forall|t: int| 0 <= t < resolve_keys_spec(centers, keys, j).len()
            ==> #[trigger] resolve_keys_spec(centers, keys, j)[t] < centers.len(),
    decreases j,
{
    if j > 0 {
        lemma_resolve_keys_in_range(centers, keys, j - 1);
        let prev = resolve_keys_spec(centers, keys, j - 1);
        let cur = resolve_keys_spec(centers, keys, j);
        if centers.contains(keys[j - 1]) {
            crate::subdivide::lemma_first_index_props(centers, keys[j - 1]);
            assert(cur == prev.push(first_index_spec(centers, keys[j - 1]) as usize));
            assert forall|t: int| 0 <= t < cur.len() implies
                #[trigger] cur[t] < centers.len() by {
                if t < prev.len() {
                    assert(cur[t] == prev[t]);
                }
            }
        }
    }
}

/// Neighbor indices are back-references within the same collection: every
/// resolved neighbor of every tile is a valid tile index.
pub proof fn lemma_neighbors_are_back_references(r: int, n: int, shrink: int, k: int)
    requires
        build_spec(r, n, shrink) is Some,
        0 <= k < build_spec(r, n, shrink)->Some_0.len(),
        build_spec(r, n, shrink)->Some_0.len() <= usize::MAX,
    ensures
        forall|j: int| 0 <= j < build_spec(r, n, shrink)->Some_0[k].neighbors.len()
            ==> #[trigger] build_spec(r, n, shrink)->Some_0[k].neighbors[j]
                < build_spec(r, n, shrink)->Some_0.len(),
{
    let pool = subdiv_all(n, 20).0;
    let faces = subdiv_all(n, 20).1;
    let proj = project_prefix(pool, r, pool.len() as int)->Some_0;
    let raw = Seq::new(proj.len(), |i: int| crate::sphere::raw_tile_spec(faces, proj, i, shrink));
    let centers = Seq::new(raw.len(), |i: int| raw[i].center);
    lemma_resolve_keys_in_range(centers, raw[k].neighbor_keys,
        raw[k].neighbor_keys.len() as int);
}

/// The dual correspondence: tile `k` is centered exactly on the projection
/// of the `k`-th distinct subdivision vertex.
pub proof fn lemma_tile_center_is_projected_vertex(r: int, n: int, shrink: int, k: int)
    requires
        build_spec(r, n, shrink) is Some,
        0 <= k < build_spec(r, n, shrink)->Some_0.len(),
    ensures
        build_spec(r, n, shrink)->Some_0[k].center
            == project_prefix(subdiv_all(n, 20).0, r,
                subdiv_all(n, 20).0.len() as int)->Some_0[k],
{
}

/// Every star of more than two faces is delivered in nondecreasing angular
/// order, measured in its own frame: the one anchored at the vertex with the
/// reference direction pointing at the first face's centroid.
pub proof fn lemma_star_is_angle_ordered(faces: Seq<Face>, point: Point)
    requires
        faces.len() > 2,
    ensures
        sorted_by_angle(point, star_frame(point, faces[0]).0, star_frame(point, faces[0]).1,
            sorted_star_spec(faces, point)),
{
    let (right, fwd) = star_frame(point, faces[0]);
    lemma_isort_sorted(point, right, fwd, faces);
}

/// The full subdivision pool never holds a point twice: deduplication is
/// complete, starting from the twelve distinct corners.
pub proof fn lemma_pool_has_no_duplicates(n: int, k: int)
    requires
        0 <= k <= 20,
    ensures
        no_dup(subdiv_all(n, k).0),
    decreases k,
{
    if k == 0 {
        assert(no_dup(crate::sphere::icosa_corners()));
    } else {
        lemma_pool_has_no_duplicates(n, k - 1);
        let (pl, _) = subdiv_all(n, k - 1);
        let f = crate::sphere::icosa_faces()[k - 1];
        crate::subdivide::lemma_face_grid_no_dup(pl,
            crate::sphere::icosa_corners()[f.a as int],
            crate::sphere::icosa_corners()[f.b as int],
            crate::sphere::icosa_corners()[f.c as int], n);
    }
}

/// Resolving a subdivision vertex by its quantized identity finds exactly
/// its projected counterpart: because the pool is duplicate-free and the
/// projection preserves pool order, the correspondence is index by index.
pub proof fn lemma_correspondence_is_stable(r: int, n: int, i: int)
    requires
        project_prefix(subdiv_all(n, 20).0, r, subdiv_all(n, 20).0.len() as int) is Some,
        0 <= i < subdiv_all(n, 20).0.len(),
    ensures
        find_projected_spec(subdiv_all(n, 20).0[i], subdiv_all(n, 20).0,
            project_prefix(subdiv_all(n, 20).0, r, subdiv_all(n, 20).0.len() as int)->Some_0)
            == Some(project_prefix(subdiv_all(n, 20).0, r,
                subdiv_all(n, 20).0.len() as int)->Some_0[i]),
{
    let pool = subdiv_all(n, 20).0;
    let proj = project_prefix(pool, r, pool.len() as int)->Some_0;
    lemma_pool_has_no_duplicates(n, 20);
    lemma_project_prefix_len(pool, r, pool.len() as int);
    assert(forall|j: int| 0 <= j < i ==> pool[j] != pool[i]);
    crate::subdivide::lemma_first_index_at(pool, pool[i], i);
}

/// Each seed corner is its own first occurrence in the corner pool.
proof fn lemma_corner_index(i: int)
    requires
        0 <= i < 12,
    ensures
        first_index_spec(crate::sphere::icosa_corners(), crate::sphere::icosa_corners()[i]) == i,
{
    let corners = crate::sphere::icosa_corners();
    assert(no_dup(corners));
    crate::subdivide::lemma_first_index_at(corners, corners[i], i);
}

/// With a single chain per edge the subdivision is the identity: the pool
/// stays the twelve corners and the face list is the seed table itself.
proof fn lemma_subdiv_all_unit(k: int)
    requires
        0 <= k <= 20,
    ensures
        subdiv_all(1, k).0 == crate::sphere::icosa_corners(),
        subdiv_all(1, k).1 =~= crate::sphere::icosa_faces().take(k),
    decreases k,
{
    let corners = crate::sphere::icosa_corners();
    let table = crate::sphere::icosa_faces();
    if k == 0 {
        assert(subdiv_all(1, 0).1 =~= table.take(0));
    } else {
        lemma_subdiv_all_unit(k - 1);
        let f = table[k - 1];
        assert(f.a < 12 && f.b < 12 && f.c < 12);
        assert(corners.contains(corners[f.a as int]));
        assert(corners.contains(corners[f.b as int]));
        assert(corners.contains(corners[f.c as int]));
        crate::subdivide::lemma_face_grid_unit(corners, corners[f.a as int],
            corners[f.b as int], corners[f.c as int]);
        lemma_corner_index(f.a as int);
        lemma_corner_index(f.b as int);
        lemma_corner_index(f.c as int);
        assert(face_grid_spec(corners, corners[f.a as int], corners[f.b as int],
            corners[f.c as int], 1).1 =~= seq![f]);
        assert(subdiv_all(1, k).1 =~= subdiv_all(1, k - 1).1 + seq![f]);
        assert(subdiv_all(1, k).1 =~= table.take(k));
    }
}

/// Every corner of the seed icosahedron touches exactly five of its twenty
/// faces.
proof fn lemma_icosa_star_sizes(k: int)
    requires
        0 <= k < 12,
    ensures
        star_prefix(crate::sphere::icosa_faces(), k, 20).len() == 5,
{
    reveal_with_fuel(star_prefix, 21);
    let table = crate::sphere::icosa_faces();
    if k == 0 {
        assert(star_prefix(table, 0, 20).len() == 5);
    } else if k == 1 {
        assert(star_prefix(table, 1, 20).len() == 5);
    } else if k == 2 {
        assert(star_prefix(table, 2, 20).len() == 5);
    } else if k == 3 {
        assert(star_prefix(table, 3, 20).len() == 5);
    } else if k == 4 {
        assert(star_prefix(table, 4, 20).len() == 5);
    } else if k == 5 {
        assert(star_prefix(table, 5, 20).len() == 5);
    } else if k == 6 {
        assert(star_prefix(table, 6, 20).len() == 5);
    } else if k == 7 {
        assert(star_prefix(table, 7, 20).len() == 5);
    } else if k == 8 {
        assert(star_prefix(table, 8, 20).len() == 5);
    } else if k == 9 {
        assert(star_prefix(table, 9, 20).len() == 5);
    } else if k == 10 {
        assert(star_prefix(table, 10, 20).len() == 5);
    } else {
        assert(star_prefix(table, 11, 20).len() == 5);
    }
}

/// At the coarsest subdivision — one chain per edge, the seed icosahedron
/// itself — every radius and every shrink yield exactly twelve tiles, each a
/// pentagon.
pub proof fn lemma_seed_sphere_is_twelve_pentagons(r: int, shrink: int)
    requires
        build_spec(r, 1, shrink) is Some,
    ensures
        build_spec(r, 1, shrink)->Some_0.len() == 12,
        forall|k: int| 0 <= k < 12
            ==> (#[trigger] build_spec(r, 1, shrink)->Some_0[k]).boundary.len() == 5,
{
    lemma_subdiv_all_unit(20);
    assert(crate::sphere::icosa_faces().take(20) =~= crate::sphere::icosa_faces());
    lemma_one_tile_per_vertex(r, 1, shrink);
    assert(subdiv_all(1, 20).0.len() == 12);
    assert forall|k: int| 0 <= k < 12 implies
        (#[trigger] build_spec(r, 1, shrink)->Some_0[k]).boundary.len() == 5 by {
        lemma_boundary_counts_star(r, 1, shrink, k);
        lemma_icosa_star_sizes(k);
    }
}

/// What the winding fix does, exactly: a boundary whose leading normal
/// passes the outward-sign test is kept as it is, and one that fails the
/// test is reversed whole.
pub proof fn lemma_winding_fix_exact(center: Point, bnd: Seq<Point>)
    ensures
        bnd.len() >= 3 && !away_spec(center, surface_normal_spec(bnd[1], bnd[2], bnd[0]))
            ==> fixed_boundary_spec(center, bnd) == bnd.reverse(),
        bnd.len() >= 3 && away_spec(center, surface_normal_spec(bnd[1], bnd[2], bnd[0]))
            ==> fixed_boundary_spec(center, bnd) == bnd,
        bnd.len() < 3 ==> fixed_boundary_spec(center, bnd) == bnd,
{
}

} // verus!
