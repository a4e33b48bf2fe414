//! Incremental two-dimensional Delaunay triangulation over exact integer
//! coordinates.
//!
//! The mesh is a `Vec<Triangle>` whose triangles name their neighbours by
//! index. Points are located by a walk across faces, inserted by splitting a
//! triangle in three, and the empty-circumcircle property is restored around
//! the new vertex by edge flips. Coordinates live on an integer grid, so
//! every orientation and circumcircle test is exact; callers map their own
//! coordinates onto the grid.

pub mod error;
pub mod geometry;
pub mod insertion;
pub mod legalization;
pub mod location;
pub mod mesh;
pub mod neighbor;
pub mod point;
pub mod removal;
pub mod scaling;
pub mod triangle;
pub mod triangulation;
pub mod vector;

pub use error::MeshError;
pub use insertion::insert_triangles;
pub use legalization::deal_with_delaunay_condition;
pub use location::find_current_cell;
pub use neighbor::Neighbor;
pub use point::{build_point, Point, COORD_LIMIT};
pub use removal::remove_big_triangle;
pub use scaling::{can_scale_back, rescale_vertices, scale_back, GRID_UNIT};
pub use triangle::{build_triangle, orientation, Cell, Triangle};
pub use triangulation::{mesh_has_vertex, triangulate};
pub use vector::{build_vector, Vector};
