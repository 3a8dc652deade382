//! The shared point pool and the triangular-grid subdivision of a face.
//!
//! Every point produced during subdivision passes through one growing pool, so
//! logically identical coordinates always resolve to a single index.  Faces
//! are emitted as triples of pool indices, in a fixed order that the
//! specifications below pin down exactly.

use vstd::prelude::*;
use crate::point::Point;
use crate::point::pt_ok;
use crate::point::chain_point;
use crate::point::lerp;

verus! {

/// A face as three indices into the shared point pool.
#[derive(Clone, Copy, Debug, PartialEq, Eq, Structural)]
pub struct FaceIx {
    /// Index of the first vertex in the point pool.
    pub a: usize,
    /// Index of the second vertex in the point pool.
    pub b: usize,
    /// Index of the third vertex in the point pool.
    pub c: usize,
}

/// Every point of the pool lies within the coordinate cap.
pub open spec fn pool_ok(s: Seq<Point>) -> bool {
    forall|i: int| 0 <= i < s.len() ==> pt_ok(#[trigger] s[i])
}

/// Inserting into the pool: unchanged when the point is already present,
/// appended otherwise.
pub open spec fn pool_insert_spec(pool: Seq<Point>, p: Point) -> Seq<Point> {
    if pool.contains(p) {
        pool
    } else {
        pool.push(p)
    }
}

/// The index of the first occurrence of `p` in `pool`.
pub open spec fn first_index_spec(pool: Seq<Point>, p: Point) -> int
    recommends
        pool.contains(p),
    decreases pool.len(),
{
    if pool.len() == 0 {
        0
    } else if pool[0] == p {
        0
    } else {
        1 + first_index_spec(pool.drop_first(), p)
    }
}

/// The first occurrence really is the first: it holds `p`, and nothing before
/// it does.
pub proof fn lemma_first_index_props(pool: Seq<Point>, p: Point)
    requires
        pool.contains(p),
    ensures
        0 <= first_index_spec(pool, p) < pool.len(),
        pool[first_index_spec(pool, p)] == p,
        forall|j: int| 0 <= j < first_index_spec(pool, p) ==> pool[j] != p,
    decreases pool.len(),
{
    if pool.len() == 0 {
    } else if pool[0] == p {
    } else {
        let rest = pool.drop_first();
        assert(rest.contains(p)) by {
            let w = choose|w: int| 0 <= w < pool.len() && pool[w] == p;
            assert(rest[w - 1] == p);
        }
        lemma_first_index_props(rest, p);
        let fi = first_index_spec(pool, p);
        assert(forall|j: int| 0 <= j < fi - 1 ==> rest[j] != p);
        assert(forall|j: int| 1 <= j < fi ==> pool[j] == rest[j - 1]);
    }
}

/// A scan that stops at the first match returns the first index.
pub proof fn lemma_first_index_at(pool: Seq<Point>, p: Point, i: int)
    requires
        0 <= i < pool.len(),
        pool[i] == p,
        forall|j: int| 0 <= j < i ==> pool[j] != p,
    ensures
        pool.contains(p),
        first_index_spec(pool, p) == i,
    decreases i,
{
    assert(pool.contains(p));
    if i == 0 {
    } else {
        let rest = pool.drop_first();
        assert(rest[i - 1] == p);
        assert(forall|j: int| 0 <= j < i - 1 ==> rest[j] == pool[j + 1] && pool[j + 1] != p);
        lemma_first_index_at(rest, p, i - 1);
    }
}

/// Looks a point up in the pool, appending it when absent, and returns the
/// index of its first (and only) occurrence.
pub fn get_or_insert_point(point: Point, points: &mut Vec<Point>) -> (idx: usize)
    requires
        pt_ok(point),
        pool_ok(old(points)@),
    ensures
        final(points)@ == pool_insert_spec(old(points)@, point),
        pool_ok(final(points)@),
        old(points)@.is_prefix_of(final(points)@),
        idx < final(points)@.len(),
        final(points)@[idx as int] == point,
        idx as int == first_index_spec(final(points)@, point),
{
    let n = points.len();
    let mut i: usize = 0;
    while i < n
        invariant
            i <= n,
            n == points@.len(),
            points@ == old(points)@,
            pool_ok(points@),
            pt_ok(point),
            forall|j: int| 0 <= j < i ==> points@[j] != point,
        decreases n - i,
    {
        if points[i] == point {
            proof {
                lemma_first_index_at(points@, point, i as int);
                assert(points@ =~= pool_insert_spec(points@, point));
            }
            return i;
        }
        i = i + 1;
    }
    proof {
        assert(!points@.contains(point));
    }
    points.push(point);
    proof {
        lemma_first_index_at(points@, point, points@.len() - 1);
        assert(old(points)@.is_prefix_of(points@));
    }
    points.len() - 1
}

/// The pool and chain after inserting entries `0 ..= k` of the subdivided
/// edge from `p1` to `p2` with `count` segments.
pub open spec fn edge_state(
    pool: Seq<Point>,
    p1: Point,
    p2: Point,
    count: int,
    k: int,
) -> (Seq<Point>, Seq<usize>)
    decreases k + 1,
{
    if k < 0 {
        (pool, Seq::empty())
    } else {
        let (pl, ix) = edge_state(pool, p1, p2, count, k - 1);
        let pt = chain_point(p1, p2, k, count);
        let pl2 = pool_insert_spec(pl, pt);
        (pl2, ix.push(first_index_spec(pl2, pt) as usize))
    }
}

/// Subdivides the edge from `p1` to `p2` into `count` segments, passing every
/// chain point through the shared pool, and returns the chain as pool
/// indices.
pub fn subdivide_edge(
    p1: &Point,
    p2: &Point,
    count: usize,
    points: &mut Vec<Point>,
) -> (out: Vec<usize>)
    requires
        pt_ok(*p1),
        pt_ok(*p2),
        1 <= count <= 1000,
        pool_ok(old(points)@),
    ensures
        (final(points)@, out@) == edge_state(old(points)@, *p1, *p2, count as int, count as int),
        pool_ok(final(points)@),
        old(points)@.is_prefix_of(final(points)@),
        out@.len() == count + 1,
        forall|k: int| 0 <= k <= count ==> #[trigger] out@[k] < final(points)@.len()
            && final(points)@[out@[k] as int] == chain_point(*p1, *p2, k, count as int),
{
    let ghost pool0 = points@;
    let mut out: Vec<usize> = Vec::new();
    let mut k: usize = 0;
    while k <= count
        invariant
            k <= count + 1,
            1 <= count <= 1000,
            pt_ok(*p1),
            pt_ok(*p2),
            pool_ok(points@),
            pool0.is_prefix_of(points@),
            (points@, out@) == edge_state(pool0, *p1, *p2, count as int, k - 1),
            out@.len() == k,
            forall|t: int| 0 <= t < k ==> #[trigger] out@[t] < points@.len()
                && points@[out@[t] as int] == chain_point(*p1, *p2, t, count as int),
        decreases count + 1 - k,
    {
        let pt: Point = if k == 0 {
            *p1
        } else if k == count {
            *p2
        } else {
            lerp(p1, p2, k as u64, count as u64)
        };
        assert(pt == chain_point(*p1, *p2, k as int, count as int));
        let ghost pre = points@;
        let ghost pre_out = out@;
        let idx = get_or_insert_point(pt, points);
        out.push(idx);
        proof {
            assert((points@, out@) == edge_state(pool0, *p1, *p2, count as int, k as int));
            assert(pool0.is_prefix_of(points@)) by {
                assert(forall|j: int| 0 <= j < pool0.len()
                    ==> pool0[j] == pre[j] && pre[j] == points@[j]);
                assert(pool0 =~= points@.subrange(0, pool0.len() as int));
            }
            assert forall|t: int| 0 <= t < k + 1 implies #[trigger] out@[t] < points@.len()
                && points@[out@[t] as int] == chain_point(*p1, *p2, t, count as int) by {
                if t < k {
                    assert(out@[t] == pre_out[t]);
                    assert(pre[out@[t] as int] == chain_point(*p1, *p2, t, count as int));
                    assert(points@[out@[t] as int] == pre[out@[t] as int]);
                }
            }
        }
        k = k + 1;
    }
    out
}

/// No point occurs twice.
pub open spec fn no_dup(s: Seq<Point>) -> bool {
    forall|i: int, j: int| 0 <= i < j < s.len() ==> #[trigger] s[i] != #[trigger] s[j]
}

/// Insertion cannot introduce a duplicate: it only appends a point that is
/// absent.
pub proof fn lemma_pool_insert_no_dup(pool: Seq<Point>, p: Point)
    requires
        no_dup(pool),
    ensures
        no_dup(pool_insert_spec(pool, p)),
{
    if !pool.contains(p) {
        let t = pool.push(p);
        assert forall|i: int, j: int| 0 <= i < j < t.len() implies
            #[trigger] t[i] != #[trigger] t[j] by {
            if j == t.len() - 1 {
                assert(t[i] == pool[i]);
                assert(!pool.contains(p));
                assert(pool[i] != p);
            }
        }
    }
}

/// An edge subdivision keeps the pool duplicate-free.
pub proof fn lemma_edge_state_no_dup(pool: Seq<Point>, p1: Point, p2: Point, count: int, k: int)
    requires
        no_dup(pool),
    ensures
        no_dup(edge_state(pool, p1, p2, count, k).0),
    decreases k + 1,
{
    if k >= 0 {
        lemma_edge_state_no_dup(pool, p1, p2, count, k - 1);
        let (pl, _) = edge_state(pool, p1, p2, count, k - 1);
        lemma_pool_insert_no_dup(pl, chain_point(p1, p2, k, count));
    }
}

/// A face-grid subdivision keeps the pool duplicate-free.
pub proof fn lemma_rows_state_no_dup(
    pool: Seq<Point>,
    a: Point,
    b: Point,
    c: Point,
    n: int,
    i: int,
    ix0: usize,
)
    requires
        no_dup(pool),
    ensures
        no_dup(rows_state(pool, a, b, c, n, i, ix0).0),
    decreases i,
{
    if i > 0 {
        lemma_rows_state_no_dup(pool, a, b, c, n, i - 1, ix0);
        let (pl, _, _) = rows_state(pool, a, b, c, n, i - 1, ix0);
        lemma_edge_state_no_dup(pl, chain_point(a, b, i, n), chain_point(a, c, i, n), i, i);
    }
}

/// Subdividing a whole face keeps the pool duplicate-free.
pub proof fn lemma_face_grid_no_dup(pool: Seq<Point>, a: Point, b: Point, c: Point, n: int)
    requires
        no_dup(pool),
    ensures
        no_dup(face_grid_spec(pool, a, b, c, n).0),
{
    lemma_edge_state_no_dup(pool, a, b, n, n);
    let (pl1, left) = edge_state(pool, a, b, n, n);
    lemma_edge_state_no_dup(pl1, a, c, n, n);
    let (pl2, _) = edge_state(pl1, a, c, n, n);
    lemma_rows_state_no_dup(pl2, a, b, c, n, n, left[0] as usize);
}

/// An edge split into a single chain adds no points: its two ends are
/// already pooled, and the chain is just their indices.
pub proof fn lemma_edge_state_unit(pool: Seq<Point>, p: Point, q: Point)
    requires
        pool.contains(p),
        pool.contains(q),
        pool.len() <= usize::MAX,
    ensures
        edge_state(pool, p, q, 1, 1).0 == pool,
        edge_state(pool, p, q, 1, 1).1
            =~= seq![first_index_spec(pool, p) as usize, first_index_spec(pool, q) as usize],
{
    reveal_with_fuel(edge_state, 4);
    lemma_first_index_props(pool, p);
    lemma_first_index_props(pool, q);
    assert(chain_point(p, q, 0, 1) == p);
    assert(chain_point(p, q, 1, 1) == q);
    assert(edge_state(pool, p, q, 1, -1) == (pool, Seq::<usize>::empty()));
    assert(pool_insert_spec(pool, p) == pool);
    assert(pool_insert_spec(pool, q) == pool);
}

/// Splitting a whole face into a single chain per edge adds no points and
/// emits exactly the face itself, as the indices of its three corners.
pub proof fn lemma_face_grid_unit(pool: Seq<Point>, a: Point, b: Point, c: Point)
    requires
        pool.contains(a),
        pool.contains(b),
        pool.contains(c),
        pool.len() <= usize::MAX,
    ensures
        face_grid_spec(pool, a, b, c, 1).0 == pool,
        face_grid_spec(pool, a, b, c, 1).1 =~= seq![FaceIx {
            a: first_index_spec(pool, a) as usize,
            b: first_index_spec(pool, b) as usize,
            c: first_index_spec(pool, c) as usize,
        }],
{
    reveal_with_fuel(rows_state, 3);
    reveal_with_fuel(row_faces, 3);
    lemma_edge_state_unit(pool, a, b);
    lemma_edge_state_unit(pool, a, c);
    lemma_edge_state_unit(pool, b, c);
    let fa = first_index_spec(pool, a) as usize;
    let fb = first_index_spec(pool, b) as usize;
    let fc = first_index_spec(pool, c) as usize;
    assert(chain_point(a, b, 1, 1) == b);
    assert(chain_point(a, c, 1, 1) == c);
    assert(rows_state(pool, a, b, c, 1, 0, fa) == (pool, seq![fa], Seq::<FaceIx>::empty()));
    let r1 = rows_state(pool, a, b, c, 1, 1, fa);
    assert(r1.0 == pool);
    assert(r1.1 =~= seq![fb, fc]);
    assert(row_faces(seq![fa], seq![fb, fc], 0) =~= Seq::<FaceIx>::empty());
    assert(row_faces(seq![fa], seq![fb, fc], 1)
        =~= seq![FaceIx { a: fa, b: fb, c: fc }]);
    assert(r1.2 =~= seq![FaceIx { a: fa, b: fb, c: fc }]);
}

/// Values at indices below the prefix length are shared with the extension.
pub proof fn lemma_prefix_index(s1: Seq<Point>, s2: Seq<Point>)
    requires
        s1.is_prefix_of(s2),
    ensures
        forall|j: int| 0 <= j < s1.len() ==> s2[j] == #[trigger] s1[j],
{
    assert forall|j: int| 0 <= j < s1.len() implies s2[j] == #[trigger] s1[j] by {
        assert(s1[j] == s2.subrange(0, s1.len() as int)[j]);
    }
}

/// Being a prefix is transitive.
pub proof fn lemma_prefix_trans(s1: Seq<Point>, s2: Seq<Point>, s3: Seq<Point>)
    requires
        s1.is_prefix_of(s2),
        s2.is_prefix_of(s3),
    ensures
        s1.is_prefix_of(s3),
{
    lemma_prefix_index(s1, s2);
    lemma_prefix_index(s2, s3);
    assert(s1 =~= s3.subrange(0, s1.len() as int));
}

/// The faces contributed by the first `j` columns of one grid row, between
/// the previous row `prev` and the current row `cur`.
pub open spec fn row_faces(prev: Seq<usize>, cur: Seq<usize>, j: int) -> Seq<FaceIx>
    decreases j,
{
    if j <= 0 {
        Seq::empty()
    } else {
        let t = row_faces(prev, cur, j - 1);
        let t1 = t.push(FaceIx {
            a: prev[j - 1] as usize,
            b: cur[j - 1] as usize,
            c: cur[j] as usize,
        });
        if j - 1 > 0 {
            t1.push(FaceIx {
                a: prev[j - 2] as usize,
                b: prev[j - 1] as usize,
                c: cur[j - 1] as usize,
            })
        } else {
            t1
        }
    }
}

/// The pool, last row, and emitted faces after processing grid rows
/// `1 ..= i` of the subdivision of the triangle `a b c` into `n` chains.
/// `ix0` is the pool index of the apex `a`, the zeroth row.
pub open spec fn rows_state(
    pool: Seq<Point>,
    a: Point,
    b: Point,
    c: Point,
    n: int,
    i: int,
    ix0: usize,
) -> (Seq<Point>, Seq<usize>, Seq<FaceIx>)
    decreases i,
{
    if i <= 0 {
        (pool, seq![ix0], Seq::empty())
    } else {
        let (pl, prev, fs) = rows_state(pool, a, b, c, n, i - 1, ix0);
        let (pl2, cur) = edge_state(pl, chain_point(a, b, i, n), chain_point(a, c, i, n), i, i);
        (pl2, cur, fs + row_faces(prev, cur, i))
    }
}

/// The pool and face list produced by subdividing the triangle `a b c` into
/// `n` chains: both boundary edges are interpolated first, then each row of
/// the grid, faces being emitted between consecutive rows.
pub open spec fn face_grid_spec(
    pool: Seq<Point>,
    a: Point,
    b: Point,
    c: Point,
    n: int,
) -> (Seq<Point>, Seq<FaceIx>)
{
    let (pl1, left) = edge_state(pool, a, b, n, n);
    let (pl2, right) = edge_state(pl1, a, c, n, n);
    let r = rows_state(pl2, a, b, c, n, n, left[0] as usize);
    (r.0, r.2)
}

/// Subdivides the triangular face `a b c` into a grid of `n * n` smaller
/// faces, `n` being `divisions`; every vertex passes through the shared pool
/// and the faces are appended to `faces` as pool-index triples.
pub fn subdivide_face(
    a: &Point,
    b: &Point,
    c: &Point,
    divisions: usize,
    points: &mut Vec<Point>,
    faces: &mut Vec<FaceIx>,
)
    requires
        pt_ok(*a),
        pt_ok(*b),
        pt_ok(*c),
        1 <= divisions <= 1000,
        pool_ok(old(points)@),
    ensures
        final(points)@ == face_grid_spec(old(points)@, *a, *b, *c, divisions as int).0,
        final(faces)@ == old(faces)@ + face_grid_spec(old(points)@, *a, *b, *c, divisions as int).1,
        pool_ok(final(points)@),
        old(points)@.is_prefix_of(final(points)@),
        forall|t: int| old(faces)@.len() <= t < final(faces)@.len()
            ==> (#[trigger] final(faces)@[t]).a < final(points)@.len()
                && final(faces)@[t].b < final(points)@.len()
                && final(faces)@[t].c < final(points)@.len(),
{
    let n = divisions;
    let ghost pool0 = points@;
    let ghost faces0 = faces@;
    let left = subdivide_edge(a, b, n, points);
    let ghost pool1 = points@;
    let right = subdivide_edge(a, c, n, points);
    let ghost pool2 = points@;
    proof {
        lemma_prefix_trans(pool0, pool1, pool2);
    }
    let mut prev: Vec<usize> = Vec::new();
    prev.push(left[0]);
    proof {
        lemma_prefix_index(pool1, pool2);
        assert(prev@ =~= rows_state(pool2, *a, *b, *c, n as int, 0, left@[0]).1);
        assert(faces@ =~= faces0 + rows_state(pool2, *a, *b, *c, n as int, 0, left@[0]).2);
    }
    let mut i: usize = 1;
    while i <= n
        invariant
            1 <= i <= n + 1,
            1 <= n <= 1000,
            pt_ok(*a),
            pt_ok(*b),
            pt_ok(*c),
            pool_ok(points@),
            pool2.is_prefix_of(points@),
            left@.len() == n + 1,
            right@.len() == n + 1,
            forall|k: int| 0 <= k <= n ==> #[trigger] left@[k] < points@.len()
                && points@[left@[k] as int] == chain_point(*a, *b, k, n as int),
            forall|k: int| 0 <= k <= n ==> #[trigger] right@[k] < points@.len()
                && points@[right@[k] as int] == chain_point(*a, *c, k, n as int),
            points@ == rows_state(pool2, *a, *b, *c, n as int, i - 1, left@[0]).0,
            prev@ == rows_state(pool2, *a, *b, *c, n as int, i - 1, left@[0]).1,
            faces@ == faces0 + rows_state(pool2, *a, *b, *c, n as int, i - 1, left@[0]).2,
            prev@.len() == i,
            forall|t: int| 0 <= t < prev@.len() ==> #[trigger] prev@[t] < points@.len(),
            forall|t: int| faces0.len() <= t < faces@.len()
                ==> (#[trigger] faces@[t]).a < points@.len()
                    && faces@[t].b < points@.len()
                    && faces@[t].c < points@.len(),
        decreases n + 1 - i,
    {
        let ghost pre = points@;
        let ghost fs_pre = rows_state(pool2, *a, *b, *c, n as int, i - 1, left@[0]).2;
        let pl: Point = points[left[i]];
        let pr: Point = points[right[i]];
        assert(pl == chain_point(*a, *b, i as int, n as int));
        assert(pr == chain_point(*a, *c, i as int, n as int));
        let cur = subdivide_edge(&pl, &pr, i, points);
        proof {
            lemma_prefix_index(pre, points@);
            assert(points@ == rows_state(pool2, *a, *b, *c, n as int, i as int, left@[0]).0);
            assert(cur@ == rows_state(pool2, *a, *b, *c, n as int, i as int, left@[0]).1);
            lemma_prefix_trans(pool2, pre, points@);
        }
        let mut j: usize = 0;
        while j < i
            invariant
                0 <= j <= i,
                1 <= i <= n,
                prev@.len() == i,
                cur@.len() == i + 1,
                forall|t: int| 0 <= t < prev@.len() ==> #[trigger] prev@[t] < points@.len(),
                forall|t: int| 0 <= t < cur@.len() ==> #[trigger] cur@[t] < points@.len(),
                faces@ == faces0 + fs_pre + row_faces(prev@, cur@, j as int),
                forall|t: int| faces0.len() <= t < faces@.len()
                    ==> (#[trigger] faces@[t]).a < points@.len()
                        && faces@[t].b < points@.len()
                        && faces@[t].c < points@.len(),
            decreases i - j,
        {
            faces.push(FaceIx { a: prev[j], b: cur[j], c: cur[j + 1] });
            if j > 0 {
                faces.push(FaceIx { a: prev[j - 1], b: prev[j], c: cur[j] });
            }
            proof {
                assert(faces@ =~= faces0 + fs_pre + row_faces(prev@, cur@, j + 1));
            }
            j = j + 1;
        }
        proof {
            assert(faces@ =~= faces0 + (fs_pre + row_faces(prev@, cur@, i as int)));
            assert(faces@ == faces0 + rows_state(pool2, *a, *b, *c, n as int, i as int, left@[0]).2);
        }
        prev = cur;
        i = i + 1;
    }
    proof {
        lemma_prefix_trans(pool0, pool2, points@);
        assert(points@ == face_grid_spec(pool0, *a, *b, *c, n as int).0);
        assert(faces@ == faces0 + face_grid_spec(pool0, *a, *b, *c, n as int).1);
    }
}

} // verus!
