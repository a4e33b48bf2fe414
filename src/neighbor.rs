use vstd::prelude::*;

verus! {

/// What lies across one edge of a triangle: nothing (the edge is on the
/// boundary of the mesh) or the triangle stored at an index of the mesh.
///
/// An index is used rather than a reference so that the mesh can grow and
/// be rearranged without leaving anything dangling.
#[derive(Debug, Clone, Copy, PartialEq, Eq, Structural)]
pub enum Neighbor {
    Boundary,
    Cell(usize),
}

impl Default for Neighbor {
    fn default() -> (r: Self)
        ensures
            r == Neighbor::Cell(0),
    {
        Neighbor::Cell(0)
    }
}

} // verus!
