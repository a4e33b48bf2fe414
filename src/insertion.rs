//! Splitting a triangle in three around a new vertex.
use vstd::prelude::*;

use crate::mesh::{is_ccw, mesh_ccw, 
    adjacency_in_bounds, adjacency_symmetric, back_slot, cells_distinct, edge_matched,
    edges_matched, is_mesh_vertex, lemma_wf_edges, lemma_wf_intro, lemma_wf_links,
    lemma_wf_triangle, mesh_in_range, mesh_wf, neighbors_distinct, points_to, relink,
};
use crate::geometry::orient;
use crate::neighbor::Neighbor;
use crate::point::Point;
use crate::triangle::{build_triangle, Triangle};

verus! {

/// Piece `k` of the split of `t` around `p`, the triangles of the split
/// being stored at `ids`: it keeps edge `k` of `t` and its neighbour, and
/// joins both ends of that edge to `p`.
pub open spec fn is_split_piece(r: Triangle, t: Triangle, k: int, p: Point, ids: Seq<usize>) -> bool {
    &&& r.vertices@ == seq![t.vertices[k], t.vertices[(k + 1) % 3], p]
    &&& r.adjacencies@ == seq![
        t.adjacencies[k],
        Some(Neighbor::Cell(ids[(k + 1) % 3])),
        Some(Neighbor::Cell(ids[(k + 2) % 3])),
    ]
}

/// `p` lies strictly inside `t`: strictly left of each of its edges.
pub open spec fn strictly_inside(t: Triangle, p: Point) -> bool {
    &&& orient(t.vertices[0], t.vertices[1], p) > 0
    &&& orient(t.vertices[1], t.vertices[2], p) > 0
    &&& orient(t.vertices[2], t.vertices[0], p) > 0
}

/// `m1` is `m0` with the triangle at `c` split around `p` into the pieces
/// at `ids`: each piece as `is_split_piece` says, every other triangle with
/// its vertices, each slot that named `c` renamed to the piece on its edge,
/// every other slot unchanged.
#[verifier::opaque]
pub open spec fn is_split(m0: Seq<Triangle>, m1: Seq<Triangle>, c: int, p: Point, ids: Seq<usize>) -> bool {
    &&& forall|k: int| 0 <= k < 3 ==> is_split_piece(#[trigger] m1[ids[k] as int], m0[c], k, p, ids)
    &&& forall|i: int|
        0 <= i < m0.len() && i != c ==> (#[trigger] m1[i]).vertices == m0[i].vertices
    &&& forall|i: int, k: int|
        0 <= i < m0.len() && i != c && 0 <= k < 3 && m0[i].slot(k) != c
            ==> #[trigger] m1[i].adjacencies[k] == m0[i].adjacencies[k]
    &&& forall|i: int, k: int, j: int|
        0 <= i < m0.len() && i != c && 0 <= k < 3 && 0 <= j < 3 && m0[i].slot(k) == c
            && m0[c].slot(j) == i ==> #[trigger] m1[i].adjacencies[k] == Some(
            Neighbor::Cell(#[trigger] ids[j]),
        )
}

/// Splits the triangle at `current_triangle` in three around `point`.
///
/// The first piece, on edge 0, overwrites the old triangle; the pieces on
/// edges 1 and 2 are appended. Each outside neighbour is relinked to the
/// piece that now owns its edge. Returns the indices of the three pieces.
pub fn insert_triangles(point: &Point, triangles: &mut Vec<Triangle>, current_triangle: usize) -> (r:
    Vec<usize>)
    requires
        mesh_wf(old(triangles)@),
        current_triangle < old(triangles).len(),
        old(triangles).len() + 2 <= usize::MAX,
        point.in_range(),
        strictly_inside(old(triangles)@[current_triangle as int], *point),
    ensures
        ({
            let m0 = old(triangles)@;
            let m1 = final(triangles)@;
            let c = current_triangle as int;
            &&& r@ == seq![current_triangle, m0.len() as usize, (m0.len() + 1) as usize]
            &&& m1.len() == m0.len() + 2
            &&& is_split(m0, m1, c, *point, r@)
            &&& forall|i: int|
                0 <= i < m0.len() && i != c ==> (#[trigger] m1[i]).vertices == m0[i].vertices
            &&& mesh_wf(m1)
            &&& forall|k: int| 0 <= k < 3 ==> (#[trigger] m1[r@[k] as int]).has_vertex(*point)
            &&& forall|q: Point| #[trigger] is_mesh_vertex(m1, q) == (is_mesh_vertex(m0, q) || q == *point)
        }),
{
    let ghost m0 = triangles@;
    let c = current_triangle;
    let old_triangle = triangles[c];
    let n = triangles.len();
    let mut new_triangles: Vec<usize> = Vec::new();
    new_triangles.push(c);
    new_triangles.push(n);
    new_triangles.push(n + 1);

    triangles.set(
        c,
        build_triangle(
            [old_triangle.vertices[0], old_triangle.vertices[1], *point],
            [old_triangle.adjacencies[0], Some(Neighbor::Cell(n)), Some(Neighbor::Cell(n + 1))],
        ),
    );
    triangles.push(
        build_triangle(
            [old_triangle.vertices[1], old_triangle.vertices[2], *point],
            [old_triangle.adjacencies[1], Some(Neighbor::Cell(n + 1)), Some(Neighbor::Cell(c))],
        ),
    );
    triangles.push(
        build_triangle(
            [old_triangle.vertices[2], old_triangle.vertices[0], *point],
            [old_triangle.adjacencies[2], Some(Neighbor::Cell(c)), Some(Neighbor::Cell(n))],
        ),
    );
    let ghost m_split = triangles@;
    proof {
        lemma_wf_triangle(m0, c as int);
    }
    relink(triangles, old_triangle.adjacencies[0], c, c);
    relink(triangles, old_triangle.adjacencies[1], c, n);
    relink(triangles, old_triangle.adjacencies[2], c, n + 1);
    let ghost m1 = triangles@;
    proof {
        let ids = new_triangles@;
        assert(ids =~= seq![c, n, (n + 1) as usize]);
        let t = m0[c as int];
        assert forall|k: int| 0 <= k < 3 implies #[trigger] is_split_piece(m1[ids[k] as int], t, k, *point, ids) by {
            assert(m1[ids[k] as int] == m_split[ids[k] as int]);
            assert(m_split[ids[k] as int].vertices@ =~= seq![t.vertices[k], t.vertices[(k + 1) % 3], *point]);
            assert(m_split[ids[k] as int].adjacencies@ =~= seq![
                t.adjacencies[k],
                Some(Neighbor::Cell(ids[(k + 1) % 3])),
                Some(Neighbor::Cell(ids[(k + 2) % 3])),
            ]);
        }
        assert forall|i: int, k: int, j: int|
            0 <= i < m0.len() && i != c && 0 <= k < 3 && 0 <= j < 3 && m0[i].slot(k) == c
                && m0[c as int].slot(j) == i implies #[trigger] m1[i].adjacencies[k] == Some(
                Neighbor::Cell(#[trigger] ids[j]),
            ) by {
            assert(m_split[i] == m0[i]);
            assert(t.slot(j) == i);
        }
        lemma_split_wf(m0, m1, c as int, *point, ids);
        lemma_split_vertices(m0, m1, c as int, *point, ids);
        assert forall|k: int| 0 <= k < 3 implies (#[trigger] m1[ids[k] as int]).has_vertex(*point) by {
            assert(is_split_piece(m1[ids[k] as int], t, k, *point, ids));
            assert(m1[ids[k] as int].vertices[2] == *point);
        }
        reveal(is_split);
    }
    new_triangles
}

/// A split adds the new point to the vertices of the mesh and keeps all
/// the others.
proof fn lemma_split_vertices(m0: Seq<Triangle>, m1: Seq<Triangle>, c: int, p: Point, ids: Seq<usize>)
    requires
        0 <= c < m0.len(),
        m0.len() + 2 <= usize::MAX,
        ids == seq![c as usize, m0.len() as usize, (m0.len() + 1) as usize],
        m1.len() == m0.len() + 2,
        forall|k: int| 0 <= k < 3 ==> is_split_piece(#[trigger] m1[ids[k] as int], m0[c], k, p, ids),
        forall|i: int| 0 <= i < m0.len() && i != c ==> (#[trigger] m1[i]).vertices == m0[i].vertices,
    ensures
        forall|q: Point| #[trigger] is_mesh_vertex(m1, q) == (is_mesh_vertex(m0, q) || q == p),
{
    let n = m0.len() as int;
    let t = m0[c];
    assert(is_split_piece(m1[ids[0] as int], t, 0, p, ids));
    assert(is_split_piece(m1[ids[1] as int], t, 1, p, ids));
    assert(is_split_piece(m1[ids[2] as int], t, 2, p, ids));
    assert(m1[c].vertices[0] == t.vertices[0] && m1[c].vertices[1] == t.vertices[1] && m1[c].vertices[2] == p);
    assert(m1[n].vertices[0] == t.vertices[1] && m1[n].vertices[1] == t.vertices[2] && m1[n].vertices[2] == p);
    assert(m1[n + 1].vertices[0] == t.vertices[2] && m1[n + 1].vertices[1] == t.vertices[0]);
    assert forall|q: Point| #[trigger] is_mesh_vertex(m1, q) == (is_mesh_vertex(m0, q) || q == p) by {
        if is_mesh_vertex(m1, q) {
            let i = choose|i: int| 0 <= i < m1.len() && #[trigger] m1[i].has_vertex(q);
            if i == c || i == n || i == n + 1 {
                if q != p {
                    assert(m0[c].has_vertex(q));
                }
            } else {
                assert(m0[i].has_vertex(q));
            }
        }
        if is_mesh_vertex(m0, q) {
            let i = choose|i: int| 0 <= i < m0.len() && #[trigger] m0[i].has_vertex(q);
            if i == c {
                if t.vertices[2] == q {
                    assert(m1[n].has_vertex(q));
                } else {
                    assert(m1[c].has_vertex(q));
                }
            } else {
                assert(m1[i].has_vertex(q));
            }
        }
        if q == p {
            assert(m1[c].has_vertex(q));
        }
    }
}

/// The split keeps coordinates in range and the neighbour relation in
/// bounds, symmetric and free of repetitions.
proof fn lemma_split_links(m0: Seq<Triangle>, m1: Seq<Triangle>, c: int, p: Point, ids: Seq<usize>)
    requires
        mesh_wf(m0),
        0 <= c < m0.len(),
        m0.len() + 2 <= usize::MAX,
        p.in_range(),
        strictly_inside(m0[c], p),
        ids == seq![c as usize, m0.len() as usize, (m0.len() + 1) as usize],
        m1.len() == m0.len() + 2,
        forall|k: int| 0 <= k < 3 ==> is_split_piece(#[trigger] m1[ids[k] as int], m0[c], k, p, ids),
        forall|i: int| 0 <= i < m0.len() && i != c ==> (#[trigger] m1[i]).vertices == m0[i].vertices,
        forall|i: int, k: int|
            0 <= i < m0.len() && i != c && 0 <= k < 3 && m0[i].slot(k) != c
                ==> #[trigger] m1[i].adjacencies[k] == m0[i].adjacencies[k],
        forall|i: int, k: int, j: int|
            0 <= i < m0.len() && i != c && 0 <= k < 3 && 0 <= j < 3 && m0[i].slot(k) == c
                && m0[c].slot(j) == i ==> #[trigger] m1[i].adjacencies[k] == Some(
                Neighbor::Cell(#[trigger] ids[j]),
            ),
    ensures
        mesh_in_range(m1),
        adjacency_in_bounds(m1),
        adjacency_symmetric(m1),
        neighbors_distinct(m1),
{
    lemma_wf_links(m0);
    let n = m0.len() as int;
    let t = m0[c];
    assert(is_split_piece(m1[ids[0] as int], t, 0, p, ids));
    assert(is_split_piece(m1[ids[1] as int], t, 1, p, ids));
    assert(is_split_piece(m1[ids[2] as int], t, 2, p, ids));
    assert(m1[c].vertices[0] == t.vertices[0] && m1[c].vertices[1] == t.vertices[1]
        && m1[c].vertices[2] == p);
    assert(m1[n].vertices[0] == t.vertices[1] && m1[n].vertices[1] == t.vertices[2]
        && m1[n].vertices[2] == p);
    assert(m1[n + 1].vertices[0] == t.vertices[2] && m1[n + 1].vertices[1] == t.vertices[0]
        && m1[n + 1].vertices[2] == p);
    assert(m1[c].slot(0) == t.slot(0) && m1[c].slot(1) == n && m1[c].slot(2) == n + 1);
    assert(m1[n].slot(0) == t.slot(1) && m1[n].slot(1) == n + 1 && m1[n].slot(2) == c);
    assert(m1[n + 1].slot(0) == t.slot(2) && m1[n + 1].slot(1) == c && m1[n + 1].slot(2) == n);
    assert(t.in_range());
    assert(cells_distinct(t, c));
    assert(t.slot(0) < n && t.slot(1) < n && t.slot(2) < n);
    // A triangle other than the split one keeps its slots, except the one
    // that named the split triangle, which now names the piece on its edge.
    assert forall|i: int, k: int| 0 <= i < n && i != c && 0 <= k < 3 implies {
        let s = #[trigger] m1[i].slot(k);
        if m0[i].slot(k) == c {
            (t.slot(0) == i && s == c) || (t.slot(1) == i && s == n) || (t.slot(2) == i && s == n
                + 1)
        } else {
            s == m0[i].slot(k)
        }
    } by {
        if m0[i].slot(k) == c {
            assert(points_to(m0[c], i));
            if t.slot(0) == i {
                assert(m1[i].adjacencies[k] == Some(Neighbor::Cell(ids[0])));
            } else if t.slot(1) == i {
                assert(m1[i].adjacencies[k] == Some(Neighbor::Cell(ids[1])));
            } else {
                assert(m1[i].adjacencies[k] == Some(Neighbor::Cell(ids[2])));
            }
        } else {
            assert(m1[i].adjacencies[k] == m0[i].adjacencies[k]);
        }
    }
    assert forall|i: int| 0 <= i < m1.len() implies (#[trigger] m1[i]).in_range() by {
        if i == c || i == n || i == n + 1 {
            assert(t.vertices[0].in_range() && t.vertices[1].in_range() && t.vertices[2].in_range());
            assert forall|k: int| 0 <= k < 3 implies (#[trigger] m1[i].vertices[k]).in_range() by {
                assert(k == 0 || k == 1 || k == 2);
            }
        } else {
            assert(m0[i].in_range());
            assert(m1[i].vertices == m0[i].vertices);
        }
    }
    assert forall|i: int, k: int| 0 <= i < m1.len() && 0 <= k < 3 implies #[trigger] m1[i].slot(k)
        < m1.len() by {
        if i != c && i != n && i != n + 1 {
            assert(m0[i].slot(k) < n);
        } else {
            assert(k == 0 || k == 1 || k == 2);
        }
    }
    assert forall|i: int| 0 <= i < m1.len() implies cells_distinct(#[trigger] m1[i], i) by {
        if i != c && i != n && i != n + 1 {
            assert(cells_distinct(m0[i], i));
            assert(m0[i].slot(0) < n && m0[i].slot(1) < n && m0[i].slot(2) < n);
            let s0 = m1[i].slot(0);
            let s1 = m1[i].slot(1);
            let s2 = m1[i].slot(2);
        }
    }
    assert forall|i: int, k: int|
        0 <= i < m1.len() && 0 <= k < 3 && #[trigger] m1[i].slot(k) >= 0 implies points_to(
        m1[m1[i].slot(k)],
        i,
    ) by {
        let j = m1[i].slot(k);
        if i == c || i == n || i == n + 1 {
            assert(k == 0 || k == 1 || k == 2);
            if k == 0 {
                // the outside neighbour of the piece was relinked to it
                let q = if i == c { 0int } else if i == n { 1int } else { 2int };
                assert(j == t.slot(q));
                assert(points_to(m0[j], c));
                assert(j != c);
                let kk = if m0[j].slot(0) == c { 0int } else if m0[j].slot(1) == c { 1int } else { 2int };
                assert(m0[j].slot(kk) == c);
                assert(m1[j].slot(kk) == i);
            }
        } else if m0[i].slot(k) == c {
            assert(points_to(m0[c], i));
        } else {
            let j0 = m0[i].slot(k);
            assert(j == j0);
            assert(points_to(m0[j0], i));
            assert(j0 != c);
            let kk = if m0[j0].slot(0) == i { 0int } else if m0[j0].slot(1) == i { 1int } else { 2int };
            assert(m0[j0].slot(kk) == i);
            assert(m1[j0].slot(kk) == i);
        }
    }
}

/// The split of a triangle of a well-formed mesh leaves the mesh well
/// formed.
proof fn lemma_split_wf(m0: Seq<Triangle>, m1: Seq<Triangle>, c: int, p: Point, ids: Seq<usize>)
    requires
        mesh_wf(m0),
        0 <= c < m0.len(),
        m0.len() + 2 <= usize::MAX,
        p.in_range(),
        strictly_inside(m0[c], p),
        ids == seq![c as usize, m0.len() as usize, (m0.len() + 1) as usize],
        m1.len() == m0.len() + 2,
        forall|k: int| 0 <= k < 3 ==> is_split_piece(#[trigger] m1[ids[k] as int], m0[c], k, p, ids),
        forall|i: int| 0 <= i < m0.len() && i != c ==> (#[trigger] m1[i]).vertices == m0[i].vertices,
        forall|i: int, k: int|
            0 <= i < m0.len() && i != c && 0 <= k < 3 && m0[i].slot(k) != c
                ==> #[trigger] m1[i].adjacencies[k] == m0[i].adjacencies[k],
        forall|i: int, k: int, j: int|
            0 <= i < m0.len() && i != c && 0 <= k < 3 && 0 <= j < 3 && m0[i].slot(k) == c
                && m0[c].slot(j) == i ==> #[trigger] m1[i].adjacencies[k] == Some(
                Neighbor::Cell(#[trigger] ids[j]),
            ),
    ensures
        mesh_wf(m1),
{
    lemma_split_links(m0, m1, c, p, ids);
    lemma_split_edges(m0, m1, c, p, ids);
    lemma_split_ccw(m0, m1, c, p, ids);
    lemma_wf_intro(m1);
}

/// The three pieces of a split turn counter-clockwise.
proof fn lemma_split_ccw(m0: Seq<Triangle>, m1: Seq<Triangle>, c: int, p: Point, ids: Seq<usize>)
    requires
        mesh_wf(m0),
        0 <= c < m0.len(),
        m0.len() + 2 <= usize::MAX,
        p.in_range(),
        strictly_inside(m0[c], p),
        ids == seq![c as usize, m0.len() as usize, (m0.len() + 1) as usize],
        m1.len() == m0.len() + 2,
        forall|k: int| 0 <= k < 3 ==> is_split_piece(#[trigger] m1[ids[k] as int], m0[c], k, p, ids),
        forall|i: int| 0 <= i < m0.len() && i != c ==> (#[trigger] m1[i]).vertices == m0[i].vertices,
        forall|i: int, k: int|
            0 <= i < m0.len() && i != c && 0 <= k < 3 && m0[i].slot(k) != c
                ==> #[trigger] m1[i].adjacencies[k] == m0[i].adjacencies[k],
        forall|i: int, k: int, j: int|
            0 <= i < m0.len() && i != c && 0 <= k < 3 && 0 <= j < 3 && m0[i].slot(k) == c
                && m0[c].slot(j) == i ==> #[trigger] m1[i].adjacencies[k] == Some(
                Neighbor::Cell(#[trigger] ids[j]),
            ),
    ensures
        mesh_ccw(m1),
{
    let n = m0.len() as int;
    let t = m0[c];
    assert(is_split_piece(m1[ids[0] as int], t, 0, p, ids));
    assert(is_split_piece(m1[ids[1] as int], t, 1, p, ids));
    assert(is_split_piece(m1[ids[2] as int], t, 2, p, ids));
    assert(m1[c].vertices[0] == t.vertices[0] && m1[c].vertices[1] == t.vertices[1] && m1[c].vertices[2] == p);
    assert(m1[n].vertices[0] == t.vertices[1] && m1[n].vertices[1] == t.vertices[2] && m1[n].vertices[2] == p);
    assert(m1[n + 1].vertices[0] == t.vertices[2] && m1[n + 1].vertices[1] == t.vertices[0] && m1[n + 1].vertices[2] == p);
    assert forall|j: int| 0 <= j < m1.len() implies is_ccw(#[trigger] m1[j]) by {
        if j != c && j != n && j != n + 1 {
            lemma_wf_triangle(m0, j);
        }
    }
}

/// After the split every neighbour still shares the edge it is named
/// across.
#[verifier::rlimit(100)]
proof fn lemma_split_edges(m0: Seq<Triangle>, m1: Seq<Triangle>, c: int, p: Point, ids: Seq<usize>)
    requires
        mesh_wf(m0),
        0 <= c < m0.len(),
        m0.len() + 2 <= usize::MAX,
        p.in_range(),
        strictly_inside(m0[c], p),
        ids == seq![c as usize, m0.len() as usize, (m0.len() + 1) as usize],
        m1.len() == m0.len() + 2,
        forall|k: int| 0 <= k < 3 ==> is_split_piece(#[trigger] m1[ids[k] as int], m0[c], k, p, ids),
        forall|i: int| 0 <= i < m0.len() && i != c ==> (#[trigger] m1[i]).vertices == m0[i].vertices,
        forall|i: int, k: int|
            0 <= i < m0.len() && i != c && 0 <= k < 3 && m0[i].slot(k) != c
                ==> #[trigger] m1[i].adjacencies[k] == m0[i].adjacencies[k],
        forall|i: int, k: int, j: int|
            0 <= i < m0.len() && i != c && 0 <= k < 3 && 0 <= j < 3 && m0[i].slot(k) == c
                && m0[c].slot(j) == i ==> #[trigger] m1[i].adjacencies[k] == Some(
                Neighbor::Cell(#[trigger] ids[j]),
            ),
    ensures
        edges_matched(m1),
{
    lemma_wf_links(m0);
    lemma_wf_edges(m0);
    let n = m0.len() as int;
    let t = m0[c];
    assert(is_split_piece(m1[ids[0] as int], t, 0, p, ids));
    assert(is_split_piece(m1[ids[1] as int], t, 1, p, ids));
    assert(is_split_piece(m1[ids[2] as int], t, 2, p, ids));
    assert(m1[c].vertices[0] == t.vertices[0] && m1[c].vertices[1] == t.vertices[1]
        && m1[c].vertices[2] == p);
    assert(m1[n].vertices[0] == t.vertices[1] && m1[n].vertices[1] == t.vertices[2]
        && m1[n].vertices[2] == p);
    assert(m1[n + 1].vertices[0] == t.vertices[2] && m1[n + 1].vertices[1] == t.vertices[0]
        && m1[n + 1].vertices[2] == p);
    assert(m1[c].slot(0) == t.slot(0) && m1[c].slot(1) == n && m1[c].slot(2) == n + 1);
    assert(m1[n].slot(0) == t.slot(1) && m1[n].slot(1) == n + 1 && m1[n].slot(2) == c);
    assert(m1[n + 1].slot(0) == t.slot(2) && m1[n + 1].slot(1) == c && m1[n + 1].slot(2) == n);
    assert(cells_distinct(t, c));
    assert(t.slot(0) < n && t.slot(1) < n && t.slot(2) < n);
    lemma_split_slots(m0, m1, c, p, ids);
    assert forall|i: int, k: int| 0 <= i < m1.len() && 0 <= k < 3 implies #[trigger] edge_matched(m1, i, k) by {
        let j = m1[i].slot(k);
        if j >= 0 {
            if i == c || i == n || i == n + 1 {
                let q = if i == c { 0int } else if i == n { 1int } else { 2int };
                assert(k == 0 || k == 1 || k == 2);
                if k == 0 {
                    // the outside neighbour, relinked from `c` to this piece
                    assert(j == t.slot(q));
                    assert(edge_matched(m0, c, q));
                    assert(cells_distinct(m0[j], j));
                    assert(points_to(m0[j], c));
                    let b = back_slot(m0[j], c);
                    assert(m0[j].slot(b) == c);
                    assert(m1[j].slot(b) == i);
                    assert(back_slot(m1[j], i) == b);
                }
            } else {
                let j0 = m0[i].slot(k);
                assert(edge_matched(m0, i, k));
                if j0 == c {
                    assert(points_to(t, i));
                    let q = back_slot(t, i);
                    assert(t.slot(q) == i);
                    assert(j == ids[q]);
                } else {
                    assert(j == j0);
                    assert(cells_distinct(m0[j0], j0));
                    let b = back_slot(m0[j0], i);
                    assert(points_to(m0[j0], i));
                    assert(m1[j0].vertices == m0[j0].vertices);
                    assert forall|s: int| 0 <= s < 3 implies (m1[j0].slot(s) == i) == (m0[j0].slot(s) == i) by {
                    }
                    assert(back_slot(m1[j0], i) == b);
                }
            }
        }
    }
}

/// Slots of the triangles other than the split one after the split.
proof fn lemma_split_slots(m0: Seq<Triangle>, m1: Seq<Triangle>, c: int, p: Point, ids: Seq<usize>)
    requires
        mesh_wf(m0),
        0 <= c < m0.len(),
        m0.len() + 2 <= usize::MAX,
        p.in_range(),
        strictly_inside(m0[c], p),
        ids == seq![c as usize, m0.len() as usize, (m0.len() + 1) as usize],
        m1.len() == m0.len() + 2,
        forall|k: int| 0 <= k < 3 ==> is_split_piece(#[trigger] m1[ids[k] as int], m0[c], k, p, ids),
        forall|i: int| 0 <= i < m0.len() && i != c ==> (#[trigger] m1[i]).vertices == m0[i].vertices,
        forall|i: int, k: int|
            0 <= i < m0.len() && i != c && 0 <= k < 3 && m0[i].slot(k) != c
                ==> #[trigger] m1[i].adjacencies[k] == m0[i].adjacencies[k],
        forall|i: int, k: int, j: int|
            0 <= i < m0.len() && i != c && 0 <= k < 3 && 0 <= j < 3 && m0[i].slot(k) == c
                && m0[c].slot(j) == i ==> #[trigger] m1[i].adjacencies[k] == Some(
                Neighbor::Cell(#[trigger] ids[j]),
            ),
    ensures
        forall|i: int, k: int| 0 <= i < m0.len() && i != c && 0 <= k < 3 ==> {
            let s = #[trigger] m1[i].slot(k);
            let t = m0[c];
            if m0[i].slot(k) == c {
                (t.slot(0) == i && s == c) || (t.slot(1) == i && s == m0.len()) || (t.slot(2) == i && s
                    == m0.len() + 1)
            } else {
                s == m0[i].slot(k)
            }
        },
{
    lemma_wf_links(m0);
    let n = m0.len() as int;
    let t = m0[c];
    assert forall|i: int, k: int| 0 <= i < n && i != c && 0 <= k < 3 implies {
        let s = #[trigger] m1[i].slot(k);
        if m0[i].slot(k) == c {
            (t.slot(0) == i && s == c) || (t.slot(1) == i && s == n) || (t.slot(2) == i && s == n
                + 1)
        } else {
            s == m0[i].slot(k)
        }
    } by {
        if m0[i].slot(k) == c {
            assert(points_to(m0[c], i));
            if t.slot(0) == i {
                assert(m1[i].adjacencies[k] == Some(Neighbor::Cell(ids[0])));
            } else if t.slot(1) == i {
                assert(m1[i].adjacencies[k] == Some(Neighbor::Cell(ids[1])));
            } else {
                assert(m1[i].adjacencies[k] == Some(Neighbor::Cell(ids[2])));
            }
        } else {
            assert(m1[i].adjacencies[k] == m0[i].adjacencies[k]);
        }
    }
}

} // verus!
