//! Angular ordering of a vertex star: the faces around a projected vertex are
//! sorted by the angle of their centroids in a local tangent frame, so that
//! consecutive faces share an edge.
//!
//! The frame is built from the vertex ("up" is the outward radial) and the
//! centroid of the first face in discovery order (the reference direction);
//! angles are compared exactly, by quadrant class and cross products, without
//! any trigonometry, so the order is deterministic.

use vstd::prelude::*;
use crate::point::Point;
use crate::point::pt_ok;
use crate::face::Face;
use crate::face::face_ok;
use crate::face::face_centroid_spec;
use crate::math::pt_sub;
use crate::vector::Vector3;
use crate::vector::vec_within;
use crate::vector::cross_spec;
use crate::vector::dot_spec;

verus! {

/// The component of face `g`'s centroid direction along `axis`, seen from the
/// vertex `c`.
pub open spec fn face_component(c: Point, axis: Vector3, g: Face) -> int {
    dot_spec(pt_sub(face_centroid_spec(g), c), axis)
}

/// The quarter-turn class of the angle with components `r` (along the
/// reference direction) and `f` (along the forward direction), numbered so
/// that classes ascend with the angle taken in the half-open range from just
/// above a half turn backward to a half turn forward.
pub open spec fn angle_class(r: int, f: int) -> int {
    if f < 0 {
        0
    } else if f == 0 && r >= 0 {
        1
    } else if f > 0 {
        2
    } else {
        3
    }
}

/// Whether face `g1` comes strictly before `g2` in angular order around `c`,
/// in the frame with reference direction `right` and forward direction `fwd`.
pub open spec fn angle_lt_spec(c: Point, right: Vector3, fwd: Vector3, g1: Face, g2: Face)
    -> bool {
    let r1 = face_component(c, right, g1);
    let f1 = face_component(c, fwd, g1);
    let r2 = face_component(c, right, g2);
    let f2 = face_component(c, fwd, g2);
    let c1 = angle_class(r1, f1);
    let c2 = angle_class(r2, f2);
    c1 < c2 || (c1 == c2 && (c1 == 0 || c1 == 2) && r1 * f2 - r2 * f1 > 0)
}

/// Dot products of vectors with bounded components are bounded.
proof fn lemma_dot_bound(u: Vector3, v: Vector3, mu: int, mv: int)
    requires
        vec_within(u, mu),
        vec_within(v, mv),
        0 <= mu,
        0 <= mv,
    ensures
        -(3 * (mu * mv)) <= dot_spec(u, v) <= 3 * (mu * mv),
{
    crate::numeric::lemma_mul_bound(u.x as int, v.x as int, mu, mv);
    crate::numeric::lemma_mul_bound(u.y as int, v.y as int, mu, mv);
    crate::numeric::lemma_mul_bound(u.z as int, v.z as int, mu, mv);
}

/// The angular comparison, in executable form.
fn angle_lt(c: &Point, right: &Vector3, fwd: &Vector3, g1: &Face, g2: &Face) -> (r: bool)
    requires
        pt_ok(*c),
        face_ok(*g1),
        face_ok(*g2),
        vec_within(*right, 20_000_000),
        vec_within(*fwd, 800_000_000_000_000),
    ensures
        r == angle_lt_spec(*c, *right, *fwd, *g1, *g2),
{
    let ce1 = g1.get_centroid();
    let ce2 = g2.get_centroid();
    let d1 = Vector3 { x: ce1.x - c.x, y: ce1.y - c.y, z: ce1.z - c.z };
    let d2 = Vector3 { x: ce2.x - c.x, y: ce2.y - c.y, z: ce2.z - c.z };
    let r1 = d1.dot(right);
    let f1 = d1.dot(fwd);
    let r2 = d2.dot(right);
    let f2 = d2.dot(fwd);
    proof {
        lemma_dot_bound(d1, *right, 20_000_000, 20_000_000);
        lemma_dot_bound(d2, *right, 20_000_000, 20_000_000);
        lemma_dot_bound(d1, *fwd, 20_000_000, 800_000_000_000_000);
        lemma_dot_bound(d2, *fwd, 20_000_000, 800_000_000_000_000);
        crate::numeric::lemma_mul_bound(r1 as int, f2 as int, 1_200_000_000_000_000,
            48_000_000_000_000_000_000_000);
        crate::numeric::lemma_mul_bound(r2 as int, f1 as int, 1_200_000_000_000_000,
            48_000_000_000_000_000_000_000);
    }
    let c1: u8 = if f1 < 0 {
        0
    } else if f1 == 0 && r1 >= 0 {
        1
    } else if f1 > 0 {
        2
    } else {
        3
    };
    let c2: u8 = if f2 < 0 {
        0
    } else if f2 == 0 && r2 >= 0 {
        1
    } else if f2 > 0 {
        2
    } else {
        3
    };
    c1 < c2 || (c1 == c2 && (c1 == 0 || c1 == 2) && r1 * f2 - r2 * f1 > 0)
}

/// The position at which `g` is inserted into the already sorted `s`: just
/// before the first face that must come strictly after `g`, so that faces at
/// equal angles keep their discovery order.
pub open spec fn insert_pos_spec(c: Point, right: Vector3, fwd: Vector3, s: Seq<Face>, g: Face)
    -> int
    decreases s.len(),
{
    if s.len() == 0 {
        0
    } else if angle_lt_spec(c, right, fwd, g, s[0]) {
        0
    } else {
        1 + insert_pos_spec(c, right, fwd, s.drop_first(), g)
    }
}

/// The insertion position lies within the sequence.
pub proof fn lemma_insert_pos_range(c: Point, right: Vector3, fwd: Vector3, s: Seq<Face>, g: Face)
    ensures
        0 <= insert_pos_spec(c, right, fwd, s, g) <= s.len(),
    decreases s.len(),
{
    if s.len() != 0 && !angle_lt_spec(c, right, fwd, g, s[0]) {
        lemma_insert_pos_range(c, right, fwd, s.drop_first(), g);
    }
}

/// A scan that stops at the first face after `g` finds the insertion
/// position.
proof fn lemma_insert_pos_at(
    c: Point,
    right: Vector3,
    fwd: Vector3,
    s: Seq<Face>,
    g: Face,
    t: int,
)
    requires
        0 <= t <= s.len(),
        forall|u: int| 0 <= u < t ==> !angle_lt_spec(c, right, fwd, g, #[trigger] s[u]),
        t < s.len() ==> angle_lt_spec(c, right, fwd, g, s[t]),
    ensures
        insert_pos_spec(c, right, fwd, s, g) == t,
    decreases t,
{
    if s.len() == 0 {
    } else if t == 0 {
    } else {
        let rest = s.drop_first();
        assert(forall|u: int| 0 <= u < t - 1
            ==> !angle_lt_spec(c, right, fwd, g, #[trigger] rest[u]) && rest[u] == s[u + 1]);
        assert(t - 1 < rest.len() ==> rest[t - 1] == s[t]);
        lemma_insert_pos_at(c, right, fwd, rest, g, t - 1);
    }
}

/// Insertion sort of a star, by angle in the given frame; stable, so faces at
/// equal angles keep their discovery order.
pub open spec fn isort_spec(c: Point, right: Vector3, fwd: Vector3, s: Seq<Face>) -> Seq<Face>
    decreases s.len(),
{
    if s.len() == 0 {
        Seq::empty()
    } else {
        let sorted = isort_spec(c, right, fwd, s.drop_last());
        sorted.insert(insert_pos_spec(c, right, fwd, sorted, s.last()), s.last())
    }
}

/// Whether `s` is in nondecreasing angular order: no face comes strictly
/// before an earlier one.
pub open spec fn sorted_by_angle(c: Point, right: Vector3, fwd: Vector3, s: Seq<Face>) -> bool {
    forall|i: int, j: int| 0 <= i < j < s.len()
        ==> !angle_lt_spec(c, right, fwd, #[trigger] s[j], #[trigger] s[i])
}

/// The strict angular order is asymmetric.
pub proof fn lemma_angle_lt_asym(c: Point, right: Vector3, fwd: Vector3, g1: Face, g2: Face)
    requires
        angle_lt_spec(c, right, fwd, g1, g2),
    ensures
        !angle_lt_spec(c, right, fwd, g2, g1),
{
}

/// The strict angular order is transitive.
pub proof fn lemma_angle_lt_trans(
    c: Point,
    right: Vector3,
    fwd: Vector3,
    g1: Face,
    g2: Face,
    g3: Face,
)
    requires
        angle_lt_spec(c, right, fwd, g1, g2),
        angle_lt_spec(c, right, fwd, g2, g3),
    ensures
        angle_lt_spec(c, right, fwd, g1, g3),
{
    let r1 = face_component(c, right, g1);
    let f1 = face_component(c, fwd, g1);
    let r2 = face_component(c, right, g2);
    let f2 = face_component(c, fwd, g2);
    let r3 = face_component(c, right, g3);
    let f3 = face_component(c, fwd, g3);
    if angle_class(r1, f1) == angle_class(r2, f2) && angle_class(r2, f2) == angle_class(r3, f3) {
        if f1 > 0 {
            assert(r1 * f3 - r3 * f1 > 0) by (nonlinear_arith)
                requires r1 * f2 - r2 * f1 > 0 && r2 * f3 - r3 * f2 > 0
                    && f1 > 0 && f2 > 0 && f3 > 0;
        } else {
            assert(r1 * f3 - r3 * f1 > 0) by (nonlinear_arith)
                requires r1 * f2 - r2 * f1 > 0 && r2 * f3 - r3 * f2 > 0
                    && f1 < 0 && f2 < 0 && f3 < 0;
        }
    }
}

/// What the insertion position promises: nothing before it must come after
/// `g`, and whatever stands at it must.
proof fn lemma_insert_pos_props(c: Point, right: Vector3, fwd: Vector3, s: Seq<Face>, g: Face)
    ensures
        forall|u: int| 0 <= u < insert_pos_spec(c, right, fwd, s, g)
            ==> !angle_lt_spec(c, right, fwd, g, #[trigger] s[u]),
        insert_pos_spec(c, right, fwd, s, g) < s.len()
            ==> angle_lt_spec(c, right, fwd, g, s[insert_pos_spec(c, right, fwd, s, g)]),
    decreases s.len(),
{
    if s.len() != 0 && !angle_lt_spec(c, right, fwd, g, s[0]) {
        let rest = s.drop_first();
        lemma_insert_pos_props(c, right, fwd, rest, g);
        lemma_insert_pos_range(c, right, fwd, rest, g);
        let pos = insert_pos_spec(c, right, fwd, s, g);
        assert(pos == 1 + insert_pos_spec(c, right, fwd, rest, g));
        assert forall|u: int| 0 <= u < pos implies
            !angle_lt_spec(c, right, fwd, g, #[trigger] s[u]) by {
            if u >= 1 {
                assert(s[u] == rest[u - 1]);
            }
        }
        if pos < s.len() {
            assert(s[pos] == rest[pos - 1]);
        }
    }
}

/// Inserting at the insertion position keeps the order sorted.
proof fn lemma_insert_preserves_sorted(
    c: Point,
    right: Vector3,
    fwd: Vector3,
    s: Seq<Face>,
    g: Face,
)
    requires
        sorted_by_angle(c, right, fwd, s),
    ensures
        sorted_by_angle(c, right, fwd,
            s.insert(insert_pos_spec(c, right, fwd, s, g), g)),
{
    let pos = insert_pos_spec(c, right, fwd, s, g);
    lemma_insert_pos_range(c, right, fwd, s, g);
    lemma_insert_pos_props(c, right, fwd, s, g);
    let t = s.insert(pos, g);
    assert forall|i: int, j: int| 0 <= i < j < t.len() implies
        !angle_lt_spec(c, right, fwd, #[trigger] t[j], #[trigger] t[i]) by {
        if i < pos && j < pos {
            assert(t[i] == s[i] && t[j] == s[j]);
        } else if i < pos && j == pos {
            assert(t[i] == s[i] && t[j] == g);
            if angle_lt_spec(c, right, fwd, g, s[i]) {
                assert(false);
            }
        } else if i < pos && j > pos {
            assert(t[i] == s[i] && t[j] == s[j - 1]);
        } else if i == pos && j > pos {
            assert(t[i] == g && t[j] == s[j - 1]);
            if angle_lt_spec(c, right, fwd, s[j - 1], g) {
                assert(angle_lt_spec(c, right, fwd, g, s[pos]));
                if j - 1 == pos {
                    lemma_angle_lt_asym(c, right, fwd, g, s[pos]);
                } else {
                    lemma_angle_lt_trans(c, right, fwd, s[j - 1], g, s[pos]);
                }
                assert(false);
            }
        } else {
            assert(t[i] == s[i - 1] && t[j] == s[j - 1]);
        }
    }
}

/// The insertion sort sorts: its result is in nondecreasing angular order.
pub proof fn lemma_isort_sorted(c: Point, right: Vector3, fwd: Vector3, s: Seq<Face>)
    ensures
        sorted_by_angle(c, right, fwd, isort_spec(c, right, fwd, s)),
    decreases s.len(),
{
    if s.len() != 0 {
        lemma_isort_sorted(c, right, fwd, s.drop_last());
        lemma_insert_preserves_sorted(c, right, fwd,
            isort_spec(c, right, fwd, s.drop_last()), s.last());
    }
}

/// Inserting anywhere in a sequence inserts into its multiset.
proof fn lemma_insert_to_multiset(s: Seq<Face>, v: Face, pos: int)
    requires
        0 <= pos <= s.len(),
    ensures
        s.insert(pos, v).to_multiset() =~= s.to_multiset().insert(v),
{
    broadcast use vstd::seq_lib::group_to_multiset_ensures;
    broadcast use vstd::multiset::group_multiset_axioms;

    let t = s.insert(pos, v);
    assert(t.remove(pos) =~= s);
    assert(t[pos] == v);
    assert(t.remove(pos).to_multiset() =~= t.to_multiset().remove(t[pos]));
    assert(t.contains(v));
    assert(t.to_multiset().count(v) > 0);
    assert forall|a: Face| t.to_multiset().count(a)
        == #[trigger] s.to_multiset().insert(v).count(a) by {
        if a == v {
            assert(s.to_multiset().count(v) == t.to_multiset().remove(v).count(v));
        } else {
            assert(s.to_multiset().count(a) == t.to_multiset().remove(v).count(a));
        }
    }
}

/// The sort is a reordering: lengths agree and the faces are the same as a
/// multiset.
pub proof fn lemma_isort_permutes(c: Point, right: Vector3, fwd: Vector3, s: Seq<Face>)
    ensures
        isort_spec(c, right, fwd, s).len() == s.len(),
        isort_spec(c, right, fwd, s).to_multiset() == s.to_multiset(),
    decreases s.len(),
{
    broadcast use vstd::seq_lib::group_to_multiset_ensures;

    if s.len() == 0 {
        assert(isort_spec(c, right, fwd, s) =~= s);
    } else {
        let prefix = s.drop_last();
        lemma_isort_permutes(c, right, fwd, prefix);
        let sorted = isort_spec(c, right, fwd, prefix);
        let pos = insert_pos_spec(c, right, fwd, sorted, s.last());
        lemma_insert_pos_range(c, right, fwd, sorted, s.last());
        lemma_insert_to_multiset(sorted, s.last(), pos);
        assert(prefix.push(s.last()) =~= s);
        assert(prefix.push(s.last()).to_multiset() =~= prefix.to_multiset().insert(s.last()));
    }
}

/// The frame in which a star around `point` is ordered: the reference
/// direction points at the centroid of the first face in discovery order,
/// and the forward direction completes it with the outward radial.
pub open spec fn star_frame(point: Point, first: Face) -> (Vector3, Vector3) {
    let right = pt_sub(face_centroid_spec(first), point);
    let up = Vector3 { x: point.x, y: point.y, z: point.z };
    (right, cross_spec(up, right))
}

/// The faces of a star in angular order around `point`: stars of more than
/// two faces are insertion-sorted by angle in the frame of the first face;
/// smaller stars are left as they are.
pub open spec fn sorted_star_spec(faces: Seq<Face>, point: Point) -> Seq<Face> {
    if faces.len() <= 2 {
        faces
    } else {
        let (right, fwd) = star_frame(point, faces[0]);
        isort_spec(point, right, fwd, faces)
    }
}

/// Sorts the faces of a star into angular order around `point`, so that
/// consecutive faces share an edge; stars of at most two faces are left as
/// they are.
pub fn sort_faces_around_point(faces: &mut Vec<Face>, point: &Point)
    requires
        pt_ok(*point),
        forall|t: int| 0 <= t < old(faces)@.len() ==> face_ok(#[trigger] old(faces)@[t]),
    ensures
        final(faces)@ == sorted_star_spec(old(faces)@, *point),
        final(faces)@.len() == old(faces)@.len(),
        final(faces)@.to_multiset() == old(faces)@.to_multiset(),
        forall|t: int| 0 <= t < final(faces)@.len() ==> face_ok(#[trigger] final(faces)@[t]),
        old(faces)@.len() > 2 ==> sorted_by_angle(*point,
            star_frame(*point, old(faces)@[0]).0, star_frame(*point, old(faces)@[0]).1,
            final(faces)@),
{
    let ghost input = faces@;
    if faces.len() <= 2 {
        return;
    }
    let n = faces.len();
    let first: Face = faces[0];
    let ce0 = first.get_centroid();
    let right = Vector3 { x: ce0.x - point.x, y: ce0.y - point.y, z: ce0.z - point.z };
    let up = Vector3 { x: point.x, y: point.y, z: point.z };
    let fwd = up.cross(&right);
    proof {
        assert((right, fwd) == star_frame(*point, input[0]));
    }
    let mut out: Vec<Face> = Vec::new();
    let mut i: usize = 0;
    while i < n
        invariant
            i <= n,
            n == faces@.len(),
            faces@ == input,
            pt_ok(*point),
            vec_within(right, 20_000_000),
            vec_within(fwd, 800_000_000_000_000),
            forall|t: int| 0 <= t < input.len() ==> face_ok(#[trigger] input[t]),
            out@ == isort_spec(*point, right, fwd, input.take(i as int)),
            out@.len() == i,
            forall|t: int| 0 <= t < out@.len() ==> face_ok(#[trigger] out@[t]),
        decreases n - i,
    {
        let g: Face = faces[i];
        let mut t: usize = 0;
        let m = out.len();
        let ghost out_snap = out@;
        loop
            invariant_except_break
                t <= m,
                m == out@.len(),
                out@ == out_snap,
                pt_ok(*point),
                face_ok(g),
                vec_within(right, 20_000_000),
                vec_within(fwd, 800_000_000_000_000),
                forall|u: int| 0 <= u < out@.len() ==> face_ok(#[trigger] out@[u]),
                forall|u: int| 0 <= u < t ==> !angle_lt_spec(*point, right, fwd, g,
                    #[trigger] out@[u]),
            ensures
                t <= m,
                out@ == out_snap,
                forall|u: int| 0 <= u < t ==> !angle_lt_spec(*point, right, fwd, g,
                    #[trigger] out@[u]),
                t < m ==> angle_lt_spec(*point, right, fwd, g, out@[t as int]),
            decreases m - t,
        {
            if t == m {
                break;
            }
            if angle_lt(point, &right, &fwd, &g, &out[t]) {
                break;
            }
            t = t + 1;
        }
        proof {
            lemma_insert_pos_at(*point, right, fwd, out@, g, t as int);
        }
        out.insert(t, g);
        proof {
            assert(input.take(i + 1).drop_last() =~= input.take(i as int));
            assert(input.take(i + 1).last() == g);
        }
        i = i + 1;
    }
    proof {
        assert(input.take(n as int) =~= input);
        lemma_isort_permutes(*point, right, fwd, input);
        lemma_isort_sorted(*point, right, fwd, input);
    }
    *faces = out;
}

} // verus!
