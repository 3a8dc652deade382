//! Tests of the pipeline stages: the shared point pool, edge and face
//! subdivision, angular sorting and correspondence lookup.

use geotiles::Point;
use geotiles::Face;
use geotiles::get_or_insert_point;
use geotiles::subdivide_edge;
use geotiles::subdivide_face;
use geotiles::sort_faces_around_point;
use geotiles::find_projected_point;
use geotiles::subdivide::FaceIx;

#[test]
fn test_get_or_insert_point_dedups() {
    let mut pool: Vec<Point> = Vec::new();
    let p1 = Point::new(1000, 2000, 3000);
    let p2 = Point::new(1000, 2000, 3000);
    let i1 = get_or_insert_point(p1, &mut pool);
    assert_eq!(pool.len(), 1);
    let i2 = get_or_insert_point(p2, &mut pool);
    assert_eq!(pool.len(), 1);
    assert_eq!(i1, i2);
    let i3 = get_or_insert_point(Point::new(0, 0, 0), &mut pool);
    assert_eq!(pool.len(), 2);
    assert_eq!(i3, 1);
}

#[test]
fn test_subdivide_edge_chain() {
    let mut pool: Vec<Point> = Vec::new();
    let p1 = Point::new(0, 0, 0);
    let p2 = Point::new(3000, 0, 0);
    get_or_insert_point(p1, &mut pool);
    get_or_insert_point(p2, &mut pool);
    let chain = subdivide_edge(&p1, &p2, 3, &mut pool);
    assert_eq!(chain.len(), 4);
    assert_eq!(pool.len(), 4); // the two interior points were new
    assert_eq!(pool[chain[0]], p1);
    assert_eq!(pool[chain[1]], Point::new(1000, 0, 0));
    assert_eq!(pool[chain[2]], Point::new(2000, 0, 0));
    assert_eq!(pool[chain[3]], p2);
    // subdividing the same edge again adds nothing
    let again = subdivide_edge(&p1, &p2, 3, &mut pool);
    assert_eq!(pool.len(), 4);
    assert_eq!(again, chain);
    // the reversed edge resolves to the same points
    let reversed = subdivide_edge(&p2, &p1, 3, &mut pool);
    assert_eq!(pool.len(), 4);
    assert_eq!(pool[reversed[1]], Point::new(2000, 0, 0));
}

#[test]
fn test_subdivide_face_grid() {
    let mut pool: Vec<Point> = Vec::new();
    let mut faces: Vec<FaceIx> = Vec::new();
    let a = Point::new(0, 0, 0);
    let b = Point::new(4000, 0, 0);
    let c = Point::new(0, 4000, 0);
    get_or_insert_point(a, &mut pool);
    get_or_insert_point(b, &mut pool);
    get_or_insert_point(c, &mut pool);
    subdivide_face(&a, &b, &c, 2, &mut pool, &mut faces);
    // two chains per edge make four faces over six points
    assert_eq!(faces.len(), 4);
    assert_eq!(pool.len(), 6);
    // one unit deeper: sixteen faces over fifteen points
    let mut pool4: Vec<Point> = Vec::new();
    let mut faces4: Vec<FaceIx> = Vec::new();
    get_or_insert_point(a, &mut pool4);
    get_or_insert_point(b, &mut pool4);
    get_or_insert_point(c, &mut pool4);
    subdivide_face(&a, &b, &c, 4, &mut pool4, &mut faces4);
    assert_eq!(faces4.len(), 16);
    assert_eq!(pool4.len(), 15);
    // every face is a triple of valid, distinct pool indices
    for f in &faces4 {
        assert!(f.a < pool4.len() && f.b < pool4.len() && f.c < pool4.len());
        assert!(f.a != f.b && f.b != f.c && f.a != f.c);
    }
}

#[test]
fn test_sort_faces_around_point() {
    let center = Point::new(0, 0, 1000);
    let face_east = Face::new(
        0,
        center,
        Point::new(1000, 0, 1000),
        Point::new(707, 707, 1000),
    );
    let face_north = Face::new(
        1,
        center,
        Point::new(0, 1000, 1000),
        Point::new(-707, 707, 1000),
    );
    let face_west = Face::new(
        2,
        center,
        Point::new(-1000, 0, 1000),
        Point::new(-707, -707, 1000),
    );
    let face_south = Face::new(
        3,
        center,
        Point::new(0, -1000, 1000),
        Point::new(707, -707, 1000),
    );
    let mut faces = vec![face_west, face_south, face_east, face_north];
    sort_faces_around_point(&mut faces, &center);
    let sorted_ids: Vec<usize> = faces.iter().map(|f| f.id).collect();
    assert_eq!(sorted_ids.len(), 4);
    // the angular order is cyclic: east, north, west, south in sequence
    let east_pos = sorted_ids.iter().position(|&id| id == 0).unwrap();
    for i in 0..4 {
        assert_eq!(
            sorted_ids[(east_pos + i) % 4],
            i,
            "face {} should be at position {} relative to the first face",
            i,
            i
        );
    }
}

#[test]
fn test_sort_faces_edge_cases() {
    let center = Point::new(0, 0, 0);
    let mut empty_faces: Vec<Face> = vec![];
    sort_faces_around_point(&mut empty_faces, &center);
    assert_eq!(empty_faces.len(), 0);

    let face = Face::new(0, center, Point::new(1000, 0, 0), Point::new(0, 1000, 0));
    let mut single_face = vec![face];
    sort_faces_around_point(&mut single_face, &center);
    assert_eq!(single_face.len(), 1);
    assert_eq!(single_face[0].id, 0);

    let face2 = Face::new(1, center, Point::new(0, 1000, 0), Point::new(-1000, 0, 0));
    let mut two_faces = vec![face2, face];
    sort_faces_around_point(&mut two_faces, &center);
    assert_eq!(two_faces.len(), 2);
    assert_eq!(two_faces[0].id, 1); // two faces are left untouched
}

#[test]
fn test_find_projected_point_by_identity() {
    let pool = vec![
        Point::new(2000, 0, 0),
        Point::new(0, 2000, 0),
        Point::new(0, 0, 2000),
    ];
    let projected = vec![
        Point::new(1000, 0, 0),
        Point::new(0, 1000, 0),
        Point::new(0, 0, 1000),
    ];
    let hit = find_projected_point(&Point::new(0, 2000, 0), &pool, &projected);
    assert_eq!(hit, Some(Point::new(0, 1000, 0)));
    let miss = find_projected_point(&Point::new(9, 9, 9), &pool, &projected);
    assert_eq!(miss, None);
}
