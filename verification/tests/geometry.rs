//! Unit tests for the quantized geometric primitives.

use geotiles::Point;
use geotiles::Vector3;
use geotiles::Face;
use geotiles::numeric::round_div;
use geotiles::numeric::isqrt;
use geotiles::numeric::sqrt_round;
use geotiles::point::centroid3;
use std::collections::hash_map::DefaultHasher;
use std::hash::Hash;
use std::hash::Hasher;

#[test]
fn test_round_div_exact_and_halves() {
    assert_eq!(round_div(6000, 3), 2000);
    assert_eq!(round_div(1, 2), 1); // half rounds away from zero
    assert_eq!(round_div(-1, 2), -1);
    assert_eq!(round_div(1, 3), 0);
    assert_eq!(round_div(2, 3), 1);
    assert_eq!(round_div(-2, 3), -1);
    assert_eq!(round_div(0, 7), 0);
}

#[test]
fn test_isqrt_values() {
    assert_eq!(isqrt(0), 0);
    assert_eq!(isqrt(1), 1);
    assert_eq!(isqrt(3), 1);
    assert_eq!(isqrt(4), 2);
    assert_eq!(isqrt(999999), 999);
    assert_eq!(isqrt(1000000), 1000);
    assert_eq!(sqrt_round(2), 1); // sqrt(2) = 1.41 rounds to 1
    assert_eq!(sqrt_round(3), 2); // sqrt(3) = 1.73 rounds to 2
}

#[test]
fn test_point_creation() {
    let point = Point::new(1000, 2000, 3000);
    assert_eq!(point.x, 1000);
    assert_eq!(point.y, 2000);
    assert_eq!(point.z, 3000);
}

#[test]
fn test_distance_calculation() {
    let p1 = Point::new(0, 0, 0);
    let p2 = Point::new(3000, 4000, 0);
    assert_eq!(p1.distance_to(&p2), 5000); // 3-4-5 triangle
}

#[test]
fn test_distance_symmetry() {
    let p1 = Point::new(1000, 2000, 3000);
    let p2 = Point::new(4000, 6000, 8000);
    assert_eq!(p1.distance_to(&p2), p2.distance_to(&p1));
}

#[test]
fn test_distance_zero() {
    let p1 = Point::new(1000, 2000, 3000);
    let p2 = Point::new(1000, 2000, 3000);
    assert_eq!(p1.distance_to(&p2), 0);
}

#[test]
fn test_subdivide_line() {
    let p1 = Point::new(0, 0, 0);
    let p2 = Point::new(3000, 0, 0);
    let subdivided = p1.subdivide(&p2, 3);
    assert_eq!(subdivided.len(), 4);
    assert_eq!(subdivided[0], p1);
    assert_eq!(subdivided[1].x, 1000);
    assert_eq!(subdivided[2].x, 2000);
    assert_eq!(subdivided[3], p2);
}

#[test]
fn test_subdivide_edge_cases() {
    let p1 = Point::new(0, 0, 0);
    let p2 = Point::new(1000, 1000, 1000);
    let single = p1.subdivide(&p2, 1);
    assert_eq!(single.len(), 2);
    assert_eq!(single[0], p1);
    assert_eq!(single[1], p2);
    let zero = p1.subdivide(&p2, 0);
    assert_eq!(zero.len(), 1);
    assert_eq!(zero[0], p1);
}

#[test]
fn test_segment_midpoint() {
    let p1 = Point::new(0, 0, 0);
    let p2 = Point::new(2000, 2000, 2000);
    let midpoint = p1.segment(&p2, 500);
    assert_eq!(midpoint, Point::new(1000, 1000, 1000));
}

#[test]
fn test_segment_endpoints() {
    let p1 = Point::new(1000, 2000, 3000);
    let p2 = Point::new(4000, 5000, 6000);
    assert_eq!(p1.segment(&p2, 0), p1);
    assert_eq!(p1.segment(&p2, 1000), p2);
    // out-of-range fractions are clamped
    assert_eq!(p1.segment(&p2, -100), p1);
    assert_eq!(p1.segment(&p2, 1700), p2);
}

#[test]
fn test_segment_quarter_points() {
    let p1 = Point::new(0, 0, 0);
    let p2 = Point::new(4000, 0, 0);
    let quarter = p1.segment(&p2, 250);
    assert_eq!(quarter, Point::new(1000, 0, 0));
}

#[test]
fn test_projection_to_unit_sphere() {
    let point = Point::new(2000, 0, 0);
    let projected = point.project(1000).unwrap();
    assert_eq!(projected, Point::new(1000, 0, 0));
}

#[test]
fn test_projection_to_different_radius() {
    let point = Point::new(1000, 1000, 1000);
    let projected = point.project(5000).unwrap();
    let mag = projected.distance_to(&Point::new(0, 0, 0));
    assert!((mag - 5000).abs() <= 2, "magnitude {} should be close to 5000", mag);
}

#[test]
fn test_projection_of_origin_fails() {
    let point = Point::new(0, 0, 0);
    assert!(point.project(1000).is_none());
}

#[test]
fn test_point_equality() {
    let p1 = Point::new(1000, 2000, 3000);
    let p2 = Point::new(1000, 2000, 3000);
    let p3 = Point::new(1100, 2000, 3000);
    assert_eq!(p1, p2);
    assert_ne!(p1, p3);
}

#[test]
fn test_point_clone() {
    let original = Point::new(1000, 2000, 3000);
    let cloned = original.clone();
    assert_eq!(original, cloned);
}

#[test]
fn test_point_hash_consistency() {
    let p1 = Point::new(1000, 2000, 3000);
    let p2 = Point::new(1000, 2000, 3000);
    let mut hasher1 = DefaultHasher::new();
    let mut hasher2 = DefaultHasher::new();
    p1.hash(&mut hasher1);
    p2.hash(&mut hasher2);
    assert_eq!(hasher1.finish(), hasher2.finish());
}

#[test]
fn test_vector_cross() {
    let x_axis = Vector3::new(1000, 0, 0);
    let y_axis = Vector3::new(0, 1000, 0);
    let cross = x_axis.cross(&y_axis);
    assert_eq!(cross, Vector3::new(0, 0, 1_000_000));
}

#[test]
fn test_vector_dot() {
    let v1 = Vector3::new(1, 2, 3);
    let v2 = Vector3::new(4, 5, 6);
    assert_eq!(v1.dot(&v2), 32);
}

#[test]
fn test_vector_normalize() {
    let v = Vector3::new(3000, 4000, 0);
    let unit = v.normalize().unwrap();
    assert_eq!(unit, Vector3::new(600, 800, 0));
    assert!(Vector3::new(0, 0, 0).normalize().is_none());
}

#[test]
fn test_face_centroid() {
    let face = Face::new(0, Point::new(0, 0, 0), Point::new(3000, 0, 0), Point::new(0, 3000, 0));
    let centroid = face.get_centroid();
    assert_eq!(centroid, Point::new(1000, 1000, 0));
}

#[test]
fn test_face_centroid_rounds_to_nearest() {
    let face = Face::new(0, Point::new(1, 0, 0), Point::new(1, 0, 0), Point::new(0, 0, 0));
    // (1 + 1 + 0) / 3 = 0.67, which rounds to 1
    assert_eq!(face.get_centroid(), Point::new(1, 0, 0));
}

#[test]
fn test_face_get_other_points() {
    let a = Point::new(0, 0, 0);
    let b = Point::new(1000, 0, 0);
    let c = Point::new(0, 1000, 0);
    let face = Face::new(0, a, b, c);
    let others = face.get_other_points(&a);
    assert_eq!(others.len(), 2);
    assert_eq!(others[0], b);
    assert_eq!(others[1], c);
    // a point that is no vertex excludes nothing
    let all = face.get_other_points(&Point::new(9, 9, 9));
    assert_eq!(all.len(), 3);
}

#[test]
fn test_face_find_third_point() {
    let a = Point::new(0, 0, 0);
    let b = Point::new(1000, 0, 0);
    let c = Point::new(0, 1000, 0);
    let face = Face::new(0, a, b, c);
    assert_eq!(face.find_third_point(&a, &b), Some(c));
    assert_eq!(face.find_third_point(&c, &a), Some(b));
}

#[test]
fn test_face_adjacency() {
    let a = Point::new(0, 0, 0);
    let b = Point::new(1000, 0, 0);
    let c = Point::new(0, 1000, 0);
    let d = Point::new(1000, 1000, 0);
    let e = Point::new(5000, 5000, 0);
    let f1 = Face::new(0, a, b, c);
    let f2 = Face::new(1, a, b, d);
    let f3 = Face::new(2, a, d, e);
    assert!(f1.is_adjacent_to(&f2)); // shares edge a-b
    assert!(!f1.is_adjacent_to(&f3)); // shares only a
    assert!(!f1.is_adjacent_to(&f1)); // a face shares all three vertices with itself
}

#[test]
fn test_centroid3_matches_face_centroid() {
    let a = Point::new(100, 200, 300);
    let b = Point::new(400, 500, 600);
    let c = Point::new(700, 800, 900);
    assert_eq!(centroid3(&a, &b, &c), Face::new(0, a, b, c).get_centroid());
}
