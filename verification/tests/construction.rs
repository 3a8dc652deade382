//! End-to-end tests of the sphere construction and its stated properties.

use geotiles::Hexasphere;
use geotiles::construct;
use geotiles::Point;
use geotiles::calculate_surface_normal;
use geotiles::pointing_away_from_origin;

fn origin_distance(p: &Point) -> f64 {
    let (x, y, z) = (p.x as f64, p.y as f64, p.z as f64);
    (x * x + y * y + z * z).sqrt()
}

#[test]
fn test_tile_count_by_depth() {
    // 12 + 10 * (4^depth - 1) tiles
    assert_eq!(construct(1000, 0, 1000).unwrap().tiles.len(), 12);
    assert_eq!(construct(1000, 1, 1000).unwrap().tiles.len(), 42);
    assert_eq!(construct(1000, 2, 1000).unwrap().tiles.len(), 162);
    assert_eq!(construct(1000, 3, 1000).unwrap().tiles.len(), 642);
}

#[test]
fn test_new_by_divisions() {
    // the direct constructor counts edge chains, not depth
    assert_eq!(Hexasphere::new(1000, 1, 1000).unwrap().tiles.len(), 12);
    assert_eq!(Hexasphere::new(1000, 2, 1000).unwrap().tiles.len(), 42);
    assert_eq!(Hexasphere::new(1000, 3, 1000).unwrap().tiles.len(), 92);
    assert_eq!(Hexasphere::new(1000, 4, 1000).unwrap().tiles.len(), 162);
}

#[test]
fn test_exactly_twelve_pentagons() {
    for (depth, shrink, radius) in [(0u32, 1000i64, 1000i64), (1, 500, 2500), (2, 10, 9000)] {
        let h = construct(radius, depth, shrink).unwrap();
        let pentagons = h.tiles.iter().filter(|t| t.is_pentagon()).count();
        let hexagons = h.tiles.iter().filter(|t| t.is_hexagon()).count();
        assert_eq!(pentagons, 12, "depth {} should have 12 pentagons", depth);
        assert_eq!(pentagons + hexagons, h.tiles.len());
    }
}

#[test]
fn test_construction_is_deterministic() {
    let h1 = construct(7000, 2, 800).unwrap();
    let h2 = construct(7000, 2, 800).unwrap();
    assert_eq!(h1, h2);
}

#[test]
fn test_neighbor_counts_and_symmetry() {
    for depth in [1u32, 2] {
        let h = construct(3000, depth, 900).unwrap();
        for (i, tile) in h.tiles.iter().enumerate() {
            assert_eq!(
                tile.neighbors.len(),
                tile.boundary.len(),
                "tile {} neighbor count should equal boundary length",
                i
            );
            for &n in &tile.neighbors {
                assert!(n < h.tiles.len());
                assert!(n != i);
                assert!(
                    h.tiles[n].neighbors.contains(&i),
                    "neighbor relation between {} and {} should be symmetric",
                    i,
                    n
                );
            }
        }
    }
}

#[test]
fn test_shared_edges_at_full_shrink() {
    // with full shrink, two adjacent tiles hold two numerically identical
    // boundary points (their shared edge), independent of radius and depth
    for (radius, depth) in [(1000i64, 1u32), (7000, 2)] {
        let h = construct(radius, depth, 1000).unwrap();
        for (i, tile) in h.tiles.iter().enumerate() {
            for &n in &tile.neighbors {
                let other = &h.tiles[n];
                let shared = tile
                    .boundary
                    .iter()
                    .filter(|p| other.boundary.contains(p))
                    .count();
                assert_eq!(
                    shared, 2,
                    "tiles {} and {} should share exactly one edge of two points",
                    i, n
                );
            }
        }
    }
}

#[test]
fn test_winding_normals_point_outward() {
    // the normal of the first three boundary points agrees in sign with the
    // center on every axis
    let h = construct(5000, 2, 900).unwrap();
    for (i, tile) in h.tiles.iter().enumerate() {
        let normal =
            calculate_surface_normal(&tile.boundary[1], &tile.boundary[2], &tile.boundary[0]);
        assert!(
            pointing_away_from_origin(&tile.center_point, &normal),
            "tile {} normal should agree in sign with its center",
            i
        );
    }
}

#[test]
fn test_depth_zero_scenario() {
    // twelve pentagons, each with five neighbors; every boundary point is a
    // centroid of an on-sphere triangle and therefore sits at about 0.795 of
    // the radius from the origin (an icosahedron face centroid lies inside
    // the circumscribed sphere)
    let h = construct(1000, 0, 1000).unwrap();
    assert_eq!(h.tiles.len(), 12);
    for tile in &h.tiles {
        assert!(tile.is_pentagon());
        assert_eq!(tile.boundary.len(), 5);
        assert_eq!(tile.neighbors.len(), 5);
        assert!((origin_distance(&tile.center_point) - 1000.0).abs() <= 2.0);
        for p in &tile.boundary {
            let d = origin_distance(p);
            assert!(
                (d - 795.0).abs() <= 3.0,
                "pentagon corner at distance {} should sit near 0.795 of the radius",
                d
            );
        }
    }
}

#[test]
fn test_depth_two_shrink_scenario() {
    // 162 tiles: 12 pentagons and 150 hexagons; at shrink 0.8 each hexagon's
    // average center-to-corner distance is near 0.8 of its full-shrink value
    let shrunk = construct(10_000, 2, 800).unwrap();
    let full = construct(10_000, 2, 1000).unwrap();
    assert_eq!(shrunk.tiles.len(), 162);
    assert_eq!(shrunk.tiles.iter().filter(|t| t.is_pentagon()).count(), 12);
    assert_eq!(shrunk.tiles.iter().filter(|t| t.is_hexagon()).count(), 150);
    for (a, b) in shrunk.tiles.iter().zip(full.tiles.iter()) {
        if a.is_hexagon() {
            let ra = a.get_average_radius() as f64;
            let rb = b.get_average_radius() as f64;
            let ratio = ra / rb;
            assert!(
                (ratio - 0.8).abs() < 0.02,
                "shrunken-to-full radius ratio {} should be near 0.8",
                ratio
            );
        }
    }
}

#[test]
fn test_doubling_radius_scales_and_keeps_topology() {
    let small = construct(1000, 1, 900).unwrap();
    let large = construct(2000, 1, 900).unwrap();
    assert_eq!(small.tiles.len(), large.tiles.len());
    for (a, b) in small.tiles.iter().zip(large.tiles.iter()) {
        // identical topology: boundary lengths and neighbor sets (the order
        // within a tile's list may rotate with the quantized star ordering)
        assert_eq!(a.boundary.len(), b.boundary.len());
        let mut na = a.neighbors.clone();
        let mut nb = b.neighbors.clone();
        na.sort();
        nb.sort();
        assert_eq!(na, nb);
        // coordinates double, up to the fixed-point rounding step
        assert!((2 * a.center_point.x - b.center_point.x).abs() <= 4);
        assert!((2 * a.center_point.y - b.center_point.y).abs() <= 4);
        assert!((2 * a.center_point.z - b.center_point.z).abs() <= 4);
        // the boundary polygon doubles as a set of points (its starting
        // corner may rotate with the quantized star ordering)
        for p in a.boundary.iter() {
            let doubled_has_match = b.boundary.iter().any(|q| {
                (2 * p.x - q.x).abs() <= 4 && (2 * p.y - q.y).abs() <= 4
                    && (2 * p.z - q.z).abs() <= 4
            });
            assert!(doubled_has_match, "every corner should double into a corner");
        }
        // measured lengths double, up to rounding
        let ea = a.get_average_edge_length();
        let eb = b.get_average_edge_length();
        assert!((2 * ea - eb).abs() <= 6, "edge lengths {} and {} should scale", ea, eb);
    }
}

#[test]
fn test_shrink_is_clamped() {
    // a shrink far outside the accepted range behaves as its nearest bound
    let low = construct(1000, 1, -50).unwrap();
    let bottom = construct(1000, 1, 10).unwrap();
    assert_eq!(low, bottom);
    let high = construct(1000, 1, 5000).unwrap();
    let top = construct(1000, 1, 1000).unwrap();
    assert_eq!(high, top);
}

#[test]
fn test_tile_getters() {
    let h = construct(2000, 1, 1000).unwrap();
    let tile = &h.tiles[0];
    // scaling the boundary halfway toward the center halves the distances
    let half = tile.scaled_boundary(500);
    assert_eq!(half.len(), tile.boundary.len());
    for (orig, scaled) in tile.boundary.iter().zip(half.iter()) {
        let d_orig = tile.center_point.distance_to(orig);
        let d_scaled = tile.center_point.distance_to(scaled);
        assert!((2 * d_scaled - d_orig).abs() <= 3);
    }
    // scaling by the full fraction is exact: the boundary comes back unchanged
    assert_eq!(tile.scaled_boundary(1000), tile.boundary);
    // average radius and edge length are positive and of the same order
    let r = tile.get_average_radius();
    let e = tile.get_average_edge_length();
    assert!(r > 0 && e > 0);
    assert!(e < 3 * r);
}

#[test]
fn test_hexasphere_radius_field() {
    let h = construct(2500, 0, 1000).unwrap();
    assert_eq!(h.radius, 2500);
    for tile in &h.tiles {
        assert!((origin_distance(&tile.center_point) - 2500.0).abs() <= 2.0);
    }
}
