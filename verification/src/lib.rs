//! Goldberg-polyhedron tile meshes: an icosahedron is subdivided into a
//! triangular grid, projected onto a sphere, and dualized into a graph of
//! hexagonal tiles with exactly twelve pentagons.
//!
//! All geometry is carried in fixed-point coordinates (thousandths of a unit),
//! so every point is quantized at construction and geometrically coincident
//! points compare equal structurally.

pub mod numeric;
pub mod point;
pub mod vector;
pub mod face;
pub mod math;
pub mod subdivide;
pub mod sort;
pub mod tile;
pub mod sphere;
pub mod laws;

pub use numeric::MAX_COORD;
pub use numeric::SCALE;
pub use point::Point;
pub use vector::Vector3;
pub use face::Face;
pub use tile::Tile;
pub use sphere::Hexasphere;
pub use sphere::BuildError;
pub use sphere::construct;
pub use sphere::find_projected_point;
pub use subdivide::get_or_insert_point;
pub use subdivide::subdivide_edge;
pub use subdivide::subdivide_face;
pub use sort::sort_faces_around_point;
pub use math::calculate_surface_normal;
pub use math::pointing_away_from_origin;
