//! Finding the triangle that contains a point.
use vstd::prelude::*;

use crate::error::MeshError;
use crate::mesh::mesh_in_range;
use crate::neighbor::Neighbor;
use crate::point::Point;
use crate::triangle::{Cell, Triangle};

verus! {

/// Finds a triangle of the mesh that contains `point`, boundary included.
///
/// Walks from `start_index` across faces towards the point, at most one
/// step per triangle of the mesh; when the walk stalls, cycles or leaves
/// the mesh, every triangle is tried in turn.
pub fn find_current_cell(point: &Point, mesh: &Vec<Triangle>, start_index: usize) -> (r: Result<
    usize,
    MeshError,
>)
    requires
        mesh_in_range(mesh@),
        point.in_range(),
    ensures
        match r {
            Ok(i) => i < mesh.len() && mesh@[i as int].contains(*point),
            Err(e) => e == MeshError::PointNotLocated && forall|i: int|
                0 <= i < mesh.len() ==> !(#[trigger] mesh@[i]).contains(*point),
        },
{
    let n = mesh.len();
    let mut current = start_index;
    let mut steps: usize = 0;
    while steps < n && current < n
        invariant
            n == mesh.len(),
            mesh_in_range(mesh@),
            point.in_range(),
        decreases n - steps,
    {
        let t = &mesh[current];
        assert(mesh@[current as int].in_range());
        if t.includes(point) {
            return Ok(current);
        }
        match t.find_face_to_point(point) {
            Ok(face) => {
                match t.adjacencies[face] {
                    Some(Neighbor::Cell(next)) => {
                        current = next;
                    },
                    _ => {
                        break ;
                    },
                }
            },
            Err(_) => {
                break ;
            },
        }
        steps += 1;
    }
    let mut i: usize = 0;
    while i < n
        invariant
            n == mesh.len(),
            mesh_in_range(mesh@),
            point.in_range(),
            forall|j: int| 0 <= j < i ==> !(#[trigger] mesh@[j]).contains(*point),
        decreases n - i,
    {
        assert(mesh@[i as int].in_range());
        if mesh[i].includes(point) {
            return Ok(i);
        }
        i += 1;
    }
    Err(MeshError::PointNotLocated)
}

} // verus!
