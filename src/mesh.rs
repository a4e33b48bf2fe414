//! The mesh as a sequence of triangles, and what it takes to be well formed.
use vstd::prelude::*;

use crate::neighbor::Neighbor;
use crate::geometry::orient;
use crate::point::Point;
use crate::triangle::{cell_of, names_cell, Triangle};

verus! {

/// Triangle `t` names the triangle at index `i` in one of its slots.
pub open spec fn points_to(t: Triangle, i: int) -> bool {
    t.slot(0) == i || t.slot(1) == i || t.slot(2) == i
}

/// Every vertex of every triangle lies within the coordinate limit.
pub open spec fn mesh_in_range(m: Seq<Triangle>) -> bool {
    forall|i: int| 0 <= i < m.len() ==> (#[trigger] m[i]).in_range()
}

/// Every slot that names a triangle names one stored in the mesh.
pub open spec fn adjacency_in_bounds(m: Seq<Triangle>) -> bool {
    forall|i: int, k: int| 0 <= i < m.len() && 0 <= k < 3 ==> #[trigger] m[i].slot(k) < m.len()
}

/// Whenever triangle `i` names triangle `j`, triangle `j` names `i` back.
pub open spec fn adjacency_symmetric(m: Seq<Triangle>) -> bool {
    forall|i: int, k: int|
        0 <= i < m.len() && 0 <= k < 3 && #[trigger] m[i].slot(k) >= 0 ==> points_to(
            m[m[i].slot(k)],
            i,
        )
}

/// The triangle stored at index `i` does not name itself, and names each
/// other triangle in at most one slot.
pub open spec fn cells_distinct(t: Triangle, i: int) -> bool {
    &&& t.slot(0) != i && t.slot(1) != i && t.slot(2) != i
    &&& t.slot(0) < 0 || (t.slot(0) != t.slot(1) && t.slot(0) != t.slot(2))
    &&& t.slot(1) < 0 || t.slot(1) != t.slot(2)
}

/// No triangle names itself or names a neighbour twice.
pub open spec fn neighbors_distinct(m: Seq<Triangle>) -> bool {
    forall|i: int| 0 <= i < m.len() ==> cells_distinct(#[trigger] m[i], i)
}

/// The slot of `t` that names the triangle at index `i` (the first such),
/// or 2 when none does.
pub open spec fn back_slot(t: Triangle, i: int) -> int {
    if t.slot(0) == i {
        0
    } else if t.slot(1) == i {
        1
    } else {
        2
    }
}

/// Slot `k` of the triangle at `i`, if it names a triangle, names one that
/// has the same edge, run the other way, in the slot that names `i` back.
pub open spec fn edge_matched(m: Seq<Triangle>, i: int, k: int) -> bool {
    let j = m[i].slot(k);
    let b = back_slot(m[j], i);
    j >= 0 ==> m[j].vertices[b] == m[i].vertices[(k + 1) % 3] && m[j].vertices[(b + 1) % 3]
        == m[i].vertices[k]
}

/// Every neighbour shares the edge it is named across.
pub open spec fn edges_matched(m: Seq<Triangle>) -> bool {
    forall|i: int, k: int| 0 <= i < m.len() && 0 <= k < 3 ==> #[trigger] edge_matched(m, i, k)
}

/// `t` turns counter-clockwise: it has positive area.
pub open spec fn is_ccw(t: Triangle) -> bool {
    orient(t.vertices[0], t.vertices[1], t.vertices[2]) > 0
}

/// Every triangle turns counter-clockwise.
pub open spec fn mesh_ccw(m: Seq<Triangle>) -> bool {
    forall|i: int| 0 <= i < m.len() ==> is_ccw(#[trigger] m[i])
}

/// The mesh is well formed: coordinates in range, every triangle counter-
/// clockwise, and the neighbour relation in bounds, symmetric, free of
/// repetitions and matched with the edges.
#[verifier::opaque]
pub open spec fn mesh_wf(m: Seq<Triangle>) -> bool {
    &&& mesh_in_range(m)
    &&& mesh_ccw(m)
    &&& adjacency_in_bounds(m)
    &&& adjacency_symmetric(m)
    &&& neighbors_distinct(m)
    &&& edges_matched(m)
}

/// The slot `n` with a reference to `from` turned into one to `to`.
pub open spec fn relinked(n: Option<Neighbor>, from: int, to: usize) -> Option<Neighbor> {
    if cell_of(n) == from {
        Some(Neighbor::Cell(to))
    } else {
        n
    }
}

/// `t` is `s` with every reference to `from` turned into one to `to`.
pub open spec fn is_relinked(t: Triangle, s: Triangle, from: int, to: usize) -> bool {
    &&& t.vertices == s.vertices
    &&& forall|k: int| 0 <= k < 3 ==> #[trigger] t.adjacencies[k] == relinked(s.adjacencies[k], from, to)
}

/// In the triangle that `n` names, if any, turns every reference to `from`
/// into one to `to`.
pub fn relink(triangles: &mut Vec<Triangle>, n: Option<Neighbor>, from: usize, to: usize)
    requires
        cell_of(n) < old(triangles).len(),
    ensures
        final(triangles).len() == old(triangles).len(),
        forall|i: int|
            0 <= i < old(triangles).len() ==> if i == cell_of(n) {
                is_relinked(final(triangles)[i], old(triangles)[i], from as int, to)
            } else {
                final(triangles)[i] == old(triangles)[i]
            },
{
    if let Some(Neighbor::Cell(l)) = n {
        let mut t = triangles[l];
        let ghost t0 = t;
        let mut j: usize = 0;
        while j < 3
            invariant
                0 <= j <= 3,
                t.vertices == t0.vertices,
                forall|k: int| 0 <= k < j ==> #[trigger] t.adjacencies[k] == relinked(t0.adjacencies[k], from as int, to),
                forall|k: int| j <= k < 3 ==> #[trigger] t.adjacencies[k] == t0.adjacencies[k],
            decreases 3 - j,
        {
            if names_cell(t.adjacencies[j], from) {
                t.set_adjacency(j, Some(Neighbor::Cell(to)));
            }
            j += 1;
        }
        triangles.set(l, t);
    }
}

} // verus!

verus! {

/// The position of `p` among the vertices of `t` (the first one), or 2 when
/// `p` is not a vertex.
pub open spec fn local_id(t: Triangle, p: Point) -> int {
    if t.vertices[0] == p {
        0
    } else if t.vertices[1] == p {
        1
    } else {
        2
    }
}

/// The edge of triangle `x` opposite its vertex `p` is locally Delaunay:
/// either nothing lies across it, or `p` is not strictly inside the
/// circumcircle of the triangle across it.
pub open spec fn edge_legal(m: Seq<Triangle>, x: int, p: Point) -> bool {
    let u = m[x].slot((local_id(m[x], p) + 1) % 3);
    u < 0 || !m[u].circle_contains(p)
}

/// Every triangle with vertex `p`, except those listed in `pending`, has a
/// locally Delaunay edge opposite `p`.
#[verifier::opaque]
pub open spec fn legal_except(m: Seq<Triangle>, pending: Seq<usize>, p: Point) -> bool {
    forall|x: int|
        0 <= x < m.len() && (#[trigger] m[x]).has_vertex(p) && !pending.contains(x as usize)
            ==> edge_legal(m, x, p)
}

/// Every triangle with vertex `p` has a locally Delaunay edge opposite `p`.
pub open spec fn legal_around(m: Seq<Triangle>, p: Point) -> bool {
    forall|x: int| 0 <= x < m.len() && (#[trigger] m[x]).has_vertex(p) ==> edge_legal(m, x, p)
}

/// How many triangles of `m` have `p` as a vertex.
pub open spec fn count_with_vertex(m: Seq<Triangle>, p: Point) -> nat
    decreases m.len(),
{
    if m.len() == 0 {
        0
    } else {
        count_with_vertex(m.drop_last(), p) + if m.last().has_vertex(p) {
            1nat
        } else {
            0nat
        }
    }
}

/// At most every triangle has `p` as a vertex.
pub proof fn lemma_count_bound(m: Seq<Triangle>, p: Point)
    ensures
        count_with_vertex(m, p) <= m.len(),
    decreases m.len(),
{
    if m.len() > 0 {
        lemma_count_bound(m.drop_last(), p);
    }
}

/// Giving `p` to more triangles, and to one more at least, raises the
/// count.
pub proof fn lemma_count_grows(m: Seq<Triangle>, m2: Seq<Triangle>, p: Point, j: int)
    requires
        m.len() == m2.len(),
        forall|i: int| 0 <= i < m.len() && (#[trigger] m[i]).has_vertex(p) ==> m2[i].has_vertex(p),
        0 <= j < m.len(),
        !m[j].has_vertex(p),
        m2[j].has_vertex(p),
    ensures
        count_with_vertex(m2, p) >= count_with_vertex(m, p) + 1,
    decreases m.len(),
{
    let n = m.len() as int;
    if j == n - 1 {
        lemma_count_mono(m.drop_last(), m2.drop_last(), p);
    } else {
        assert forall|i: int|
            0 <= i < m.drop_last().len() && (#[trigger] m.drop_last()[i]).has_vertex(p) implies m2.drop_last()[i].has_vertex(p) by {
            assert(m.drop_last()[i] == m[i]);
        }
        lemma_count_grows(m.drop_last(), m2.drop_last(), p, j);
        assert(m.last() == m[n - 1]);
    }
}

/// Giving `p` to more triangles does not lower the count.
pub proof fn lemma_count_mono(m: Seq<Triangle>, m2: Seq<Triangle>, p: Point)
    requires
        m.len() == m2.len(),
        forall|i: int| 0 <= i < m.len() && (#[trigger] m[i]).has_vertex(p) ==> m2[i].has_vertex(p),
    ensures
        count_with_vertex(m2, p) >= count_with_vertex(m, p),
    decreases m.len(),
{
    if m.len() > 0 {
        let n = m.len() as int;
        assert forall|i: int|
            0 <= i < m.drop_last().len() && (#[trigger] m.drop_last()[i]).has_vertex(p) implies m2.drop_last()[i].has_vertex(p) by {
            assert(m.drop_last()[i] == m[i]);
        }
        lemma_count_mono(m.drop_last(), m2.drop_last(), p);
        assert(m.last() == m[n - 1]);
    }
}

/// `q` is a vertex of some triangle of `m`.
pub open spec fn is_mesh_vertex(m: Seq<Triangle>, q: Point) -> bool {
    exists|i: int| 0 <= i < m.len() && #[trigger] m[i].has_vertex(q)
}

/// The parts of well-formedness that concern the neighbour relation alone.
pub proof fn lemma_wf_links(m: Seq<Triangle>)
    requires
        mesh_wf(m),
    ensures
        mesh_in_range(m),
        adjacency_in_bounds(m),
        adjacency_symmetric(m),
        neighbors_distinct(m),
{
    reveal(mesh_wf);
}

/// What well-formedness says of the triangle that slot `k` of triangle `i`
/// names.
pub proof fn lemma_wf_neighbor(m: Seq<Triangle>, i: int, k: int)
    requires
        mesh_wf(m),
        0 <= i < m.len(),
        0 <= k < 3,
        m[i].slot(k) >= 0,
    ensures
        m[i].slot(k) < m.len(),
        points_to(m[m[i].slot(k)], i),
        cells_distinct(m[m[i].slot(k)], m[i].slot(k)),
        edge_matched(m, i, k),
{
    reveal(mesh_wf);
}

/// Well-formedness gives matched edges.
pub proof fn lemma_wf_edges(m: Seq<Triangle>)
    requires
        mesh_wf(m),
    ensures
        edges_matched(m),
{
    reveal(mesh_wf);
}

/// In a well-formed mesh every triangle turns counter-clockwise.
pub proof fn lemma_wf_ccw(m: Seq<Triangle>)
    requires
        mesh_wf(m),
    ensures
        mesh_ccw(m),
{
    reveal(mesh_wf);
}

/// Well-formedness keeps coordinates in range.
pub proof fn lemma_wf_range(m: Seq<Triangle>)
    requires
        mesh_wf(m),
    ensures
        mesh_in_range(m),
{
    reveal(mesh_wf);
}

/// Well-formedness from its parts.
pub proof fn lemma_wf_intro(m: Seq<Triangle>)
    requires
        mesh_in_range(m),
        adjacency_in_bounds(m),
        adjacency_symmetric(m),
        neighbors_distinct(m),
        edges_matched(m),
        mesh_ccw(m),
    ensures
        mesh_wf(m),
{
    reveal(mesh_wf);
}

/// What well-formedness says of one triangle.
pub proof fn lemma_wf_triangle(m: Seq<Triangle>, i: int)
    requires
        mesh_wf(m),
        0 <= i < m.len(),
    ensures
        m[i].in_range(),
        m[i].slot(0) < m.len() && m[i].slot(1) < m.len() && m[i].slot(2) < m.len(),
        cells_distinct(m[i], i),
        is_ccw(m[i]),
{
    reveal(mesh_wf);
    assert(m[i].slot(0) < m.len() && m[i].slot(1) < m.len() && m[i].slot(2) < m.len());
}

} // verus!
