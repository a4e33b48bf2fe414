use vstd::prelude::*;

verus! {

/// Why a triangulation step could not be carried out. Each of these aborts
/// the triangulation: the mesh is left consistent but the point in hand is
/// not (or not fully) inserted.
#[derive(Debug, Clone, Copy, PartialEq, Eq, Structural)]
pub enum MeshError {
    /// No triangle of the mesh contains the point.
    PointNotLocated,
    /// A neighbour relation that a well-formed planar mesh always has is
    /// missing, or two triangles share more than a planar mesh allows.
    InconsistentAdjacency,
    /// Legalization was started without any triangle to examine.
    EmptyLegalizationStack,
    /// The point lies on an edge or a vertex of the triangle that contains
    /// it, so splitting would create a triangle of zero area.
    DegenerateGeometry,
}

} // verus!
