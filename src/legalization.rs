//! Restoring the Delaunay property around a new vertex by edge flips.
use vstd::prelude::*;

use crate::error::MeshError;
use crate::geometry::{
    in_circle, lemma_flip_convex, lemma_in_circle_rotate, lemma_orient_distinct,
    lemma_orient_symmetries, lemma_vertex_not_in_circle, orient,
};
use crate::mesh::{is_ccw, mesh_ccw, 
    adjacency_in_bounds, adjacency_symmetric, back_slot, cells_distinct, count_with_vertex,
    edge_legal, edge_matched, edges_matched, is_mesh_vertex, is_relinked, legal_around,
    legal_except, lemma_count_bound, lemma_count_grows, lemma_wf_edges, lemma_wf_intro,
    lemma_wf_links, lemma_wf_neighbor, lemma_wf_triangle, local_id, mesh_in_range, mesh_wf,
    neighbors_distinct, points_to, relink, relinked,
};
use crate::neighbor::Neighbor;
use crate::point::Point;
use crate::triangle::{build_triangle, cell_of, Triangle};

verus! {

/// `m2` is `m` after flipping the edge between the triangle at `x`, which
/// has vertex `p` at position `l` and the triangle at `u` across the edge
/// opposite `p`, and that triangle, which names `x` in slot `k`.
#[verifier::opaque]
pub open spec fn is_flip(m: Seq<Triangle>, m2: Seq<Triangle>, x: int, u: int, l: int, k: int, p: Point) -> bool {
    let t = m[x];
    let w = m[u];
    let op = (k + 2) % 3;
    &&& m2.len() == m.len()
    &&& m2[x].vertices@ == seq![p, w.vertices[op], t.vertices[(l + 2) % 3]]
    &&& m2[x].adjacencies@ == seq![Some(Neighbor::Cell(u as usize)), w.adjacencies[op], t.adjacencies[(l + 2) % 3]]
    &&& m2[u].vertices@ == seq![p, t.vertices[(l + 1) % 3], w.vertices[op]]
    &&& m2[u].adjacencies@ == seq![t.adjacencies[l], w.adjacencies[(k + 1) % 3], Some(Neighbor::Cell(x as usize))]
    &&& forall|i: int|
        0 <= i < m.len() && i != x && i != u ==> if i == w.slot(op) {
            is_relinked(#[trigger] m2[i], m[i], u, x as usize)
        } else if i == t.slot(l) {
            is_relinked(m2[i], m[i], x, u as usize)
        } else {
            m2[i] == m[i]
        }
}

/// The edge of the triangle at `x` opposite its vertex `p` (at position
/// `l`) is illegal: the triangle at `u` across it, which names `x` in slot
/// `k` and agrees on the edge's ends, has `p` strictly inside its
/// circumcircle.
pub open spec fn flip_candidate(m: Seq<Triangle>, x: int, u: int, l: int, k: int, p: Point) -> bool {
    let t = m[x];
    let w = m[u];
    &&& 0 <= x < m.len() && 0 <= u < m.len()
    &&& 0 <= l < 3 && 0 <= k < 3
    &&& t.vertices[l] == p
    &&& t.slot((l + 1) % 3) == u
    &&& w.slot(k) == x
    &&& w.vertices[k] == t.vertices[(l + 2) % 3]
    &&& w.vertices[(k + 1) % 3] == t.vertices[(l + 1) % 3]
    &&& w.circle_contains(p)
}

/// The flip can be carried out: `x` and `u` are neighbours across the edge
/// opposite `p` and agree on its two ends, and the four triangles around
/// the quadrilateral that the two form are distinct where the relinking
/// needs it.
pub open spec fn flip_ready(m: Seq<Triangle>, x: int, u: int, l: int, k: int, p: Point) -> bool {
    let t = m[x];
    let w = m[u];
    let a1 = t.slot(l);
    let a2 = t.slot((l + 2) % 3);
    let b1 = w.slot((k + 2) % 3);
    let b2 = w.slot((k + 1) % 3);
    &&& 0 <= x < m.len() && 0 <= u < m.len()
    &&& 0 <= l < 3 && 0 <= k < 3
    &&& t.vertices[l] == p
    &&& t.slot((l + 1) % 3) == u
    &&& w.slot(k) == x
    &&& w.vertices[k] == t.vertices[(l + 2) % 3]
    &&& w.vertices[(k + 1) % 3] == t.vertices[(l + 1) % 3]
    &&& w.circle_contains(p)
    &&& b1 < 0 || (b1 != a1 && b1 != a2)
    &&& a1 < 0 || a1 != b2
}

/// In a well-formed mesh an illegal edge is always ready to flip: the
/// quadrilateral is convex, so no outside triangle can border both flipped
/// triangles in the ways the relinking cannot handle.
proof fn lemma_flip_no_conflict(m: Seq<Triangle>, x: int, u: int, l: int, k: int, p: Point)
    requires
        mesh_wf(m),
        flip_candidate(m, x, u, l, k, p),
    ensures
        flip_ready(m, x, u, l, k, p),
{
    let t = m[x];
    let w = m[u];
    let l1 = (l + 1) % 3;
    let l2 = (l + 2) % 3;
    let k1 = (k + 1) % 3;
    let op = (k + 2) % 3;
    let v1 = t.vertices[l1];
    let v2 = t.vertices[l2];
    let d = w.vertices[op];
    let a1 = t.slot(l);
    let a2 = t.slot(l2);
    let b1 = w.slot(op);
    let b2 = w.slot(k1);
    lemma_wf_triangle(m, x);
    lemma_wf_triangle(m, u);
    lemma_rotated(t, l, p);
    lemma_rotated(w, k, p);
    assert(l == 0 || l == 1 || l == 2);
    assert(k == 0 || k == 1 || k == 2);
    assert((l1 + 1) % 3 == l2 && (l2 + 1) % 3 == l && (k1 + 1) % 3 == op && (op + 1) % 3 == k);
    lemma_flip_convex(p, v1, v2, d);
    lemma_orient_symmetries(p, d, v2);
    lemma_orient_symmetries(p, v1, d);
    lemma_orient_symmetries(v1, p, d);
    lemma_orient_symmetries(d, v1, p);
    lemma_orient_distinct(p, v1, v2);
    lemma_orient_distinct(v2, v1, d);
    if d == p {
        lemma_vertex_not_in_circle(w.vertices[0], w.vertices[1], w.vertices[2], p);
    }
    assert(d != p);
    if b1 >= 0 && (b1 == a1 || b1 == a2) {
        let z = b1;
        lemma_wf_neighbor(m, u, op);
        let zt = m[z];
        let bs2 = back_slot(zt, u);
        assert(zt.vertices[bs2] == v2 && zt.vertices[(bs2 + 1) % 3] == d);
        lemma_wf_triangle(m, z);
        lemma_orient_distinct(zt.vertices[0], zt.vertices[1], zt.vertices[2]);
        if b1 == a2 {
            lemma_wf_neighbor(m, x, l2);
            let bs = back_slot(zt, x);
            assert(zt.vertices[bs] == p && zt.vertices[(bs + 1) % 3] == v2);
            assert(bs2 == (bs + 1) % 3);
            lemma_rotated(zt, bs, p);
            assert((bs + 2) % 3 == (bs2 + 1) % 3);
            assert(orient(p, v2, d) > 0);
            assert(false);
        } else {
            lemma_wf_neighbor(m, x, l);
            let bs = back_slot(zt, x);
            assert(zt.vertices[bs] == v1 && zt.vertices[(bs + 1) % 3] == p);
            assert(zt.slot(bs) == x && zt.slot(bs2) == u);
            assert(bs != bs2);
            assert(false);
        }
    }
    if a1 >= 0 && a1 == b2 {
        let z = a1;
        lemma_wf_neighbor(m, x, l);
        lemma_wf_neighbor(m, u, k1);
        let zt = m[z];
        let bs = back_slot(zt, x);
        let bs2 = back_slot(zt, u);
        assert(zt.vertices[bs] == v1 && zt.vertices[(bs + 1) % 3] == p);
        assert(zt.vertices[bs2] == d && zt.vertices[(bs2 + 1) % 3] == v1);
        lemma_wf_triangle(m, z);
        lemma_orient_distinct(zt.vertices[0], zt.vertices[1], zt.vertices[2]);
        assert(bs == (bs2 + 1) % 3);
        lemma_rotated(zt, bs2, p);
        assert((bs2 + 2) % 3 == (bs + 1) % 3);
        assert(orient(d, v1, p) > 0);
        assert(false);
    }
}

/// Slots and vertices of the triangles that a flip does not replace.
proof fn lemma_flip_others(m: Seq<Triangle>, m2: Seq<Triangle>, x: int, u: int, l: int, k: int, p: Point)
    requires
        mesh_wf(m),
        flip_ready(m, x, u, l, k, p),
        is_flip(m, m2, x, u, l, k, p),
    ensures
        m2.len() == m.len(),
        forall|i: int| 0 <= i < m.len() && i != x && i != u ==> (#[trigger] m2[i]).vertices == m[i].vertices,
        forall|i: int, s: int| 0 <= i < m.len() && i != x && i != u && 0 <= s < 3 ==> {
            let v = #[trigger] m2[i].slot(s);
            let v0 = m[i].slot(s);
            let b1 = m[u].slot((k + 2) % 3);
            let a1 = m[x].slot(l);
            &&& m2[i].vertices == m[i].vertices
            &&& (i == b1 && v0 == u) ==> v == x
            &&& (i == a1 && v0 == x) ==> v == u
            &&& !((i == b1 && v0 == u) || (i == a1 && v0 == x)) ==> v == v0
        },
{
    reveal(is_flip);
    let b1 = m[u].slot((k + 2) % 3);
    let a1 = m[x].slot(l);
    assert forall|i: int, s: int| 0 <= i < m.len() && i != x && i != u && 0 <= s < 3 implies {
        let v = #[trigger] m2[i].slot(s);
        let v0 = m[i].slot(s);
        &&& m2[i].vertices == m[i].vertices
        &&& (i == b1 && v0 == u) ==> v == x
        &&& (i == a1 && v0 == x) ==> v == u
        &&& !((i == b1 && v0 == u) || (i == a1 && v0 == x)) ==> v == v0
    } by {
        if i == b1 {
            assert(m2[i].adjacencies[s] == relinked(m[i].adjacencies[s], u, x as usize));
        } else if i == a1 {
            assert(m2[i].adjacencies[s] == relinked(m[i].adjacencies[s], x, u as usize));
        }
    }
    assert forall|i: int| 0 <= i < m.len() && i != x && i != u implies (#[trigger] m2[i]).vertices == m[i].vertices by {
    }
}

/// Facts about the two triangles that a flip replaces.
proof fn lemma_flip_pair(m: Seq<Triangle>, m2: Seq<Triangle>, x: int, u: int, l: int, k: int, p: Point)
    requires
        mesh_wf(m),
        m.len() <= usize::MAX,
        flip_ready(m, x, u, l, k, p),
        is_flip(m, m2, x, u, l, k, p),
    ensures
        ({
            let t = m[x];
            let w = m[u];
            let a1 = t.slot(l);
            let a2 = t.slot((l + 2) % 3);
            let b1 = w.slot((k + 2) % 3);
            let b2 = w.slot((k + 1) % 3);
            &&& x != u
            &&& m2[x].slot(0) == u && m2[x].slot(1) == b1 && m2[x].slot(2) == a2
            &&& m2[u].slot(0) == a1 && m2[u].slot(1) == b2 && m2[u].slot(2) == x
            &&& a1 != u && a2 != u && (a1 < 0 || a1 != a2)
            &&& a1 != x && a2 != x && b1 != u && b2 != u && b1 != x && b2 != x
            &&& (b1 < 0 || b1 != b2)
            &&& a1 < m.len() && a2 < m.len() && b1 < m.len() && b2 < m.len()
            &&& forall|i: int| points_to(t, i) ==> i == a1 || i == u || i == a2
            &&& forall|i: int| points_to(w, i) ==> i == x || i == b1 || i == b2
            &&& m2[x].has_vertex(p) && m2[u].has_vertex(p)
            &&& m2[x].in_range() && m2[u].in_range()
        }),
{
    lemma_flip_pair_slots(m, m2, x, u, l, k, p);
    lemma_flip_pair_vertices(m, m2, x, u, l, k, p);
}

/// What a well-formed mesh gives about the quadrilateral of a flip.
proof fn lemma_flip_ready_facts(m: Seq<Triangle>, x: int, u: int, l: int, k: int, p: Point)
    requires
        mesh_wf(m),
        flip_ready(m, x, u, l, k, p),
    ensures
        ({
            let t = m[x];
            let w = m[u];
            let a1 = t.slot(l);
            let a2 = t.slot((l + 2) % 3);
            let b1 = w.slot((k + 2) % 3);
            let b2 = w.slot((k + 1) % 3);
            &&& x != u
            &&& a1 != u && a2 != u && (a1 < 0 || a1 != a2)
            &&& a1 != x && a2 != x && b1 != u && b2 != u && b1 != x && b2 != x
            &&& (b1 < 0 || b1 != b2)
            &&& a1 < m.len() && a2 < m.len() && b1 < m.len() && b2 < m.len()
            &&& forall|i: int| points_to(t, i) ==> i == a1 || i == u || i == a2
            &&& forall|i: int| points_to(w, i) ==> i == x || i == b1 || i == b2
        }),
{
    let t = m[x];
    let w = m[u];
    lemma_wf_triangle(m, x);
    lemma_wf_triangle(m, u);
    if l == 0 {
        assert((l + 1) % 3 == 1 && (l + 2) % 3 == 2);
    } else if l == 1 {
        assert((l + 1) % 3 == 2 && (l + 2) % 3 == 0);
    } else {
        assert((l + 1) % 3 == 0 && (l + 2) % 3 == 1);
    }
    if k == 0 {
        assert((k + 1) % 3 == 1 && (k + 2) % 3 == 2);
    } else if k == 1 {
        assert((k + 1) % 3 == 2 && (k + 2) % 3 == 0);
    } else {
        assert((k + 1) % 3 == 0 && (k + 2) % 3 == 1);
    }
}

proof fn lemma_flip_pair_slots(m: Seq<Triangle>, m2: Seq<Triangle>, x: int, u: int, l: int, k: int, p: Point)
    requires
        mesh_wf(m),
        m.len() <= usize::MAX,
        flip_ready(m, x, u, l, k, p),
        is_flip(m, m2, x, u, l, k, p),
    ensures
        ({
            let t = m[x];
            let w = m[u];
            let a1 = t.slot(l);
            let a2 = t.slot((l + 2) % 3);
            let b1 = w.slot((k + 2) % 3);
            let b2 = w.slot((k + 1) % 3);
            &&& x != u
            &&& m2[x].slot(0) == u && m2[x].slot(1) == b1 && m2[x].slot(2) == a2
            &&& m2[u].slot(0) == a1 && m2[u].slot(1) == b2 && m2[u].slot(2) == x
            &&& a1 != u && a2 != u && (a1 < 0 || a1 != a2)
            &&& a1 != x && a2 != x && b1 != u && b2 != u && b1 != x && b2 != x
            &&& (b1 < 0 || b1 != b2)
            &&& a1 < m.len() && a2 < m.len() && b1 < m.len() && b2 < m.len()
            &&& forall|i: int| points_to(t, i) ==> i == a1 || i == u || i == a2
            &&& forall|i: int| points_to(w, i) ==> i == x || i == b1 || i == b2
        }),
{
    lemma_flip_ready_facts(m, x, u, l, k, p);
    reveal(is_flip);
    assert(m2[x].slot(0) == u && m2[x].slot(1) == m[u].slot((k + 2) % 3) && m2[x].slot(2) == m[x].slot((l + 2) % 3));
    assert(m2[u].slot(0) == m[x].slot(l) && m2[u].slot(1) == m[u].slot((k + 1) % 3) && m2[u].slot(2) == x);
}

proof fn lemma_flip_pair_vertices(m: Seq<Triangle>, m2: Seq<Triangle>, x: int, u: int, l: int, k: int, p: Point)
    requires
        mesh_wf(m),
        flip_ready(m, x, u, l, k, p),
        is_flip(m, m2, x, u, l, k, p),
    ensures
        m2[x].has_vertex(p) && m2[u].has_vertex(p),
        m2[x].in_range() && m2[u].in_range(),
{
    reveal(is_flip);
    lemma_wf_triangle(m, x);
    lemma_wf_triangle(m, u);
    let t = m[x];
    let w = m[u];
    assert(t.in_range() && w.in_range());
    assert(m2[x].vertices[0] == p);
    assert(m2[u].vertices[0] == p);
    let op = (k + 2) % 3;
    let l1 = (l + 1) % 3;
    let l2 = (l + 2) % 3;
    assert(0 <= op < 3 && 0 <= l1 < 3 && 0 <= l2 < 3);
    assert(t.vertices[l].in_range() && t.vertices[l1].in_range() && t.vertices[l2].in_range());
    assert(w.vertices[op].in_range());
    assert(m2[x].vertices[1] == w.vertices[op] && m2[x].vertices[2] == t.vertices[l2]);
    assert(m2[u].vertices[1] == t.vertices[l1] && m2[u].vertices[2] == w.vertices[op]);
    assert forall|s: int| 0 <= s < 3 implies (#[trigger] m2[x].vertices[s]).in_range() && m2[u].vertices[s].in_range() by {
        assert(s == 0 || s == 1 || s == 2);
    }
}

/// A flip keeps the mesh well formed.
proof fn lemma_flip_wf(m: Seq<Triangle>, m2: Seq<Triangle>, x: int, u: int, l: int, k: int, p: Point)
    requires
        mesh_wf(m),
        m.len() <= usize::MAX,
        flip_ready(m, x, u, l, k, p),
        is_flip(m, m2, x, u, l, k, p),
    ensures
        mesh_wf(m2),
{
    lemma_flip_others(m, m2, x, u, l, k, p);
    lemma_flip_pair(m, m2, x, u, l, k, p);
    lemma_flip_ranges(m, m2, x, u, l, k, p);
    lemma_flip_symmetric(m, m2, x, u, l, k, p);
    lemma_flip_edges(m, m2, x, u, l, k, p);
    lemma_flip_ccw(m, m2, x, u, l, k, p);
    lemma_wf_intro(m2);
}

/// Starting from any vertex, a counter-clockwise triangle still turns
/// counter-clockwise, and its circumcircle test is unchanged.
pub proof fn lemma_rotated(t: Triangle, l: int, p: Point)
    requires
        0 <= l < 3,
    ensures
        orient(t.vertices[l], t.vertices[(l + 1) % 3], t.vertices[(l + 2) % 3]) == orient(
            t.vertices[0],
            t.vertices[1],
            t.vertices[2],
        ),
        t.circle_contains(p) == in_circle(t.vertices[l], t.vertices[(l + 1) % 3], t.vertices[(l + 2) % 3], p),
{
    let (a, b, c) = (t.vertices[0], t.vertices[1], t.vertices[2]);
    lemma_orient_symmetries(a, b, c);
    lemma_orient_symmetries(b, c, a);
    lemma_in_circle_rotate(a, b, c, p);
    lemma_in_circle_rotate(b, c, a, p);
}

/// The two triangles a flip writes turn counter-clockwise.
proof fn lemma_flip_ccw(m: Seq<Triangle>, m2: Seq<Triangle>, x: int, u: int, l: int, k: int, p: Point)
    requires
        mesh_wf(m),
        flip_ready(m, x, u, l, k, p),
        is_flip(m, m2, x, u, l, k, p),
    ensures
        mesh_ccw(m2),
{
    lemma_flip_others(m, m2, x, u, l, k, p);
    lemma_flip_pair_vertices_exact(m, m2, x, u, l, k, p);
    lemma_wf_triangle(m, x);
    lemma_wf_triangle(m, u);
    let t = m[x];
    let w = m[u];
    lemma_rotated(t, l, p);
    lemma_rotated(w, k, p);
    assert(k == 0 || k == 1 || k == 2);
    assert((k + 2) % 3 == (k + 2) % 3);
    lemma_flip_convex(p, t.vertices[(l + 1) % 3], t.vertices[(l + 2) % 3], w.vertices[(k + 2) % 3]);
    assert forall|j: int| 0 <= j < m2.len() implies is_ccw(#[trigger] m2[j]) by {
        if j != x && j != u {
            lemma_wf_triangle(m, j);
        }
    }
}

/// After a flip every neighbour still shares the edge it is named across.
proof fn lemma_flip_edges(m: Seq<Triangle>, m2: Seq<Triangle>, x: int, u: int, l: int, k: int, p: Point)
    requires
        mesh_wf(m),
        m.len() <= usize::MAX,
        flip_ready(m, x, u, l, k, p),
        is_flip(m, m2, x, u, l, k, p),
    ensures
        edges_matched(m2),
{
    lemma_flip_others(m, m2, x, u, l, k, p);
    lemma_flip_edges_pair(m, m2, x, u, l, k, p);
    lemma_flip_edges_into_x(m, m2, x, u, l, k, p);
    lemma_flip_edges_into_u(m, m2, x, u, l, k, p);
    lemma_flip_edges_rest(m, m2, x, u, l, k, p);
}

/// The edges of the two flipped triangles are matched.
proof fn lemma_flip_edges_pair(m: Seq<Triangle>, m2: Seq<Triangle>, x: int, u: int, l: int, k: int, p: Point)
    requires
        mesh_wf(m),
        m.len() <= usize::MAX,
        flip_ready(m, x, u, l, k, p),
        is_flip(m, m2, x, u, l, k, p),
    ensures
        forall|s: int| 0 <= s < 3 ==> edge_matched(m2, x, s) && edge_matched(m2, u, s),
{
    lemma_flip_edge_diagonal(m, m2, x, u, l, k, p);
    lemma_flip_edge_x1(m, m2, x, u, l, k, p);
    lemma_flip_edge_x2(m, m2, x, u, l, k, p);
    lemma_flip_edge_u0(m, m2, x, u, l, k, p);
    lemma_flip_edge_u1(m, m2, x, u, l, k, p);
    assert forall|s: int| 0 <= s < 3 implies edge_matched(m2, x, s) && edge_matched(m2, u, s) by {
        assert(s == 0 || s == 1 || s == 2);
    }
}

/// The new diagonal is matched on both sides.
proof fn lemma_flip_edge_diagonal(m: Seq<Triangle>, m2: Seq<Triangle>, x: int, u: int, l: int, k: int, p: Point)
    requires
        mesh_wf(m),
        m.len() <= usize::MAX,
        flip_ready(m, x, u, l, k, p),
        is_flip(m, m2, x, u, l, k, p),
    ensures
        edge_matched(m2, x, 0) && edge_matched(m2, u, 2),
{
    lemma_flip_others(m, m2, x, u, l, k, p);
    lemma_flip_pair(m, m2, x, u, l, k, p);
    lemma_flip_pair_vertices_exact(m, m2, x, u, l, k, p);
    lemma_wf_edges(m);
    assert(l == 0 || l == 1 || l == 2);
    assert(k == 0 || k == 1 || k == 2);
    assert(back_slot(m2[u], x) == 2);
    assert(back_slot(m2[x], u) == 0);
}

/// The edge that `x` takes over from `u` is matched.
proof fn lemma_flip_edge_x1(m: Seq<Triangle>, m2: Seq<Triangle>, x: int, u: int, l: int, k: int, p: Point)
    requires
        mesh_wf(m),
        m.len() <= usize::MAX,
        flip_ready(m, x, u, l, k, p),
        is_flip(m, m2, x, u, l, k, p),
    ensures
        edge_matched(m2, x, 1),
{
    lemma_flip_others(m, m2, x, u, l, k, p);
    lemma_flip_pair(m, m2, x, u, l, k, p);
    lemma_flip_pair_vertices_exact(m, m2, x, u, l, k, p);
    lemma_wf_edges(m);
    assert(l == 0 || l == 1 || l == 2);
    assert(k == 0 || k == 1 || k == 2);
    let b1 = m[u].slot((k + 2) % 3);
    assert(edge_matched(m, u, (k + 2) % 3));
    if b1 >= 0 {
        lemma_wf_neighbor(m, u, (k + 2) % 3);
        assert forall|r: int| 0 <= r < 3 implies m[b1].slot(r) != x by {
            if m[b1].slot(r) == x {
                lemma_wf_neighbor(m, b1, r);
            }
        }
        assert forall|r: int| 0 <= r < 3 implies (m2[b1].slot(r) == x) == (m[b1].slot(r) == u) by {
        }
        let b = back_slot(m[b1], u);
        assert(m2[b1].slot(b) == x);
        assert(back_slot(m2[b1], x) == b);
    }
}

/// The edge that `x` keeps is matched.
proof fn lemma_flip_edge_x2(m: Seq<Triangle>, m2: Seq<Triangle>, x: int, u: int, l: int, k: int, p: Point)
    requires
        mesh_wf(m),
        m.len() <= usize::MAX,
        flip_ready(m, x, u, l, k, p),
        is_flip(m, m2, x, u, l, k, p),
    ensures
        edge_matched(m2, x, 2),
{
    lemma_flip_others(m, m2, x, u, l, k, p);
    lemma_flip_pair(m, m2, x, u, l, k, p);
    lemma_flip_pair_vertices_exact(m, m2, x, u, l, k, p);
    lemma_wf_edges(m);
    assert(l == 0 || l == 1 || l == 2);
    assert(k == 0 || k == 1 || k == 2);
    let a2 = m[x].slot((l + 2) % 3);
    assert(edge_matched(m, x, (l + 2) % 3));
    if a2 >= 0 {
        assert(back_slot(m2[a2], x) == back_slot(m[a2], x));
    }
}

/// The edge that `u` takes over from `x` is matched.
proof fn lemma_flip_edge_u0(m: Seq<Triangle>, m2: Seq<Triangle>, x: int, u: int, l: int, k: int, p: Point)
    requires
        mesh_wf(m),
        m.len() <= usize::MAX,
        flip_ready(m, x, u, l, k, p),
        is_flip(m, m2, x, u, l, k, p),
    ensures
        edge_matched(m2, u, 0),
{
    lemma_flip_others(m, m2, x, u, l, k, p);
    lemma_flip_pair(m, m2, x, u, l, k, p);
    lemma_flip_pair_vertices_exact(m, m2, x, u, l, k, p);
    lemma_wf_edges(m);
    assert(l == 0 || l == 1 || l == 2);
    assert(k == 0 || k == 1 || k == 2);
    let a1 = m[x].slot(l);
    assert(edge_matched(m, x, l));
    if a1 >= 0 {
        lemma_wf_neighbor(m, x, l);
        assert forall|r: int| 0 <= r < 3 implies m[a1].slot(r) != u by {
            if m[a1].slot(r) == u {
                lemma_wf_neighbor(m, a1, r);
            }
        }
        assert forall|r: int| 0 <= r < 3 implies (m2[a1].slot(r) == u) == (m[a1].slot(r) == x) by {
        }
        let b = back_slot(m[a1], x);
        assert(m2[a1].slot(b) == u);
        assert(back_slot(m2[a1], u) == b);
    }
}

/// The edge that `u` keeps is matched.
proof fn lemma_flip_edge_u1(m: Seq<Triangle>, m2: Seq<Triangle>, x: int, u: int, l: int, k: int, p: Point)
    requires
        mesh_wf(m),
        m.len() <= usize::MAX,
        flip_ready(m, x, u, l, k, p),
        is_flip(m, m2, x, u, l, k, p),
    ensures
        edge_matched(m2, u, 1),
{
    lemma_flip_others(m, m2, x, u, l, k, p);
    lemma_flip_pair(m, m2, x, u, l, k, p);
    lemma_flip_pair_vertices_exact(m, m2, x, u, l, k, p);
    lemma_wf_edges(m);
    assert(l == 0 || l == 1 || l == 2);
    assert(k == 0 || k == 1 || k == 2);
    let b2 = m[u].slot((k + 1) % 3);
    assert(edge_matched(m, u, (k + 1) % 3));
    if b2 >= 0 {
        assert(back_slot(m2[b2], u) == back_slot(m[b2], u));
    }
}

/// The edges through which other triangles name the flipped triangle at
/// `x` are matched.
#[verifier::rlimit(100)]
proof fn lemma_flip_edges_into_x(m: Seq<Triangle>, m2: Seq<Triangle>, x: int, u: int, l: int, k: int, p: Point)
    requires
        mesh_wf(m),
        m.len() <= usize::MAX,
        flip_ready(m, x, u, l, k, p),
        is_flip(m, m2, x, u, l, k, p),
    ensures
        forall|i: int, s: int|
            0 <= i < m.len() && i != x && i != u && 0 <= s < 3 && m2[i].slot(s) == x
                ==> #[trigger] edge_matched(m2, i, s),
{
    lemma_flip_others(m, m2, x, u, l, k, p);
    lemma_flip_pair(m, m2, x, u, l, k, p);
    lemma_flip_pair_vertices_exact(m, m2, x, u, l, k, p);
    lemma_wf_links(m);
    lemma_wf_edges(m);
    let n = m.len() as int;
    let t = m[x];
    let w = m[u];
    let op = (k + 2) % 3;
    let a1 = t.slot(l);
    let a2 = t.slot((l + 2) % 3);
    let b1 = w.slot(op);
    let b2 = w.slot((k + 1) % 3);
    assert(l == 0 || l == 1 || l == 2);
    assert(k == 0 || k == 1 || k == 2);
    assert forall|i: int, s: int|
        0 <= i < n && i != x && i != u && 0 <= s < 3 && m2[i].slot(s) == x
        implies #[trigger] edge_matched(m2, i, s) by {
        let j0 = m[i].slot(s);
        assert(edge_matched(m, i, s));
        if i == b1 && j0 == u {
            lemma_flip_edge_from_b1(m, m2, x, u, l, k, p, s);
        } else {
            assert(j0 == x);
            assert(points_to(t, i));
            assert(i == a2);
            lemma_flip_edge_from_a2(m, m2, x, u, l, k, p, s);
        }
    }
}

/// The edges through which other triangles name the flipped triangle at
/// `u` are matched.
#[verifier::rlimit(100)]
proof fn lemma_flip_edges_into_u(m: Seq<Triangle>, m2: Seq<Triangle>, x: int, u: int, l: int, k: int, p: Point)
    requires
        mesh_wf(m),
        m.len() <= usize::MAX,
        flip_ready(m, x, u, l, k, p),
        is_flip(m, m2, x, u, l, k, p),
    ensures
        forall|i: int, s: int|
            0 <= i < m.len() && i != x && i != u && 0 <= s < 3 && m2[i].slot(s) == u
                ==> #[trigger] edge_matched(m2, i, s),
{
    lemma_flip_others(m, m2, x, u, l, k, p);
    lemma_flip_pair(m, m2, x, u, l, k, p);
    lemma_flip_pair_vertices_exact(m, m2, x, u, l, k, p);
    lemma_wf_links(m);
    lemma_wf_edges(m);
    let n = m.len() as int;
    let t = m[x];
    let w = m[u];
    let op = (k + 2) % 3;
    let a1 = t.slot(l);
    let a2 = t.slot((l + 2) % 3);
    let b1 = w.slot(op);
    let b2 = w.slot((k + 1) % 3);
    assert(l == 0 || l == 1 || l == 2);
    assert(k == 0 || k == 1 || k == 2);
    assert forall|i: int, s: int|
        0 <= i < n && i != x && i != u && 0 <= s < 3 && m2[i].slot(s) == u
        implies #[trigger] edge_matched(m2, i, s) by {
        let j0 = m[i].slot(s);
        assert(edge_matched(m, i, s));
        if i == a1 && j0 == x {
            assert(back_slot(t, a1) == l);
            assert(back_slot(m2[u], a1) == 0);
        } else {
            assert(j0 == u);
            assert(points_to(w, i));
            assert(i == b2);
            assert(back_slot(w, b2) == (k + 1) % 3);
            assert(back_slot(m2[u], b2) == 1);
        }
    }
}

/// The edge through which the far neighbour of `u` names `x` after a flip
/// is matched.
proof fn lemma_flip_edge_from_b1(m: Seq<Triangle>, m2: Seq<Triangle>, x: int, u: int, l: int, k: int, p: Point, s: int)
    requires
        mesh_wf(m),
        m.len() <= usize::MAX,
        flip_ready(m, x, u, l, k, p),
        is_flip(m, m2, x, u, l, k, p),
        0 <= s < 3,
        m[u].slot((k + 2) % 3) >= 0,
        m[m[u].slot((k + 2) % 3)].slot(s) == u,
    ensures
        edge_matched(m2, m[u].slot((k + 2) % 3), s),
{
    let b1 = m[u].slot((k + 2) % 3);
    lemma_flip_others(m, m2, x, u, l, k, p);
    lemma_flip_pair(m, m2, x, u, l, k, p);
    lemma_flip_pair_vertices_exact(m, m2, x, u, l, k, p);
    lemma_wf_edges(m);
    lemma_wf_triangle(m, u);
    assert(edge_matched(m, b1, s));
    assert(k == 0 || k == 1 || k == 2);
    assert(back_slot(m[u], b1) == (k + 2) % 3);
    assert(m2[b1].slot(s) == x);
    assert(back_slot(m2[x], b1) == 1);
    assert(m2[b1].vertices == m[b1].vertices);
}

/// The edge through which the neighbour of `x` that keeps it names `x`
/// after a flip is matched.
proof fn lemma_flip_edge_from_a2(m: Seq<Triangle>, m2: Seq<Triangle>, x: int, u: int, l: int, k: int, p: Point, s: int)
    requires
        mesh_wf(m),
        m.len() <= usize::MAX,
        flip_ready(m, x, u, l, k, p),
        is_flip(m, m2, x, u, l, k, p),
        0 <= s < 3,
        m[x].slot((l + 2) % 3) >= 0,
        m[m[x].slot((l + 2) % 3)].slot(s) == x,
    ensures
        edge_matched(m2, m[x].slot((l + 2) % 3), s),
{
    let a2 = m[x].slot((l + 2) % 3);
    lemma_flip_others(m, m2, x, u, l, k, p);
    lemma_flip_pair(m, m2, x, u, l, k, p);
    lemma_flip_pair_vertices_exact(m, m2, x, u, l, k, p);
    lemma_wf_edges(m);
    lemma_wf_triangle(m, x);
    assert(edge_matched(m, a2, s));
    assert(l == 0 || l == 1 || l == 2);
    assert(back_slot(m[x], a2) == (l + 2) % 3);
    assert(m2[a2].slot(s) == x);
    assert(back_slot(m2[x], a2) == 2);
    assert(m2[a2].vertices == m[a2].vertices);
}

/// The edges between triangles that a flip does not write are matched.
#[verifier::rlimit(100)]
proof fn lemma_flip_edges_rest(m: Seq<Triangle>, m2: Seq<Triangle>, x: int, u: int, l: int, k: int, p: Point)
    requires
        mesh_wf(m),
        m.len() <= usize::MAX,
        flip_ready(m, x, u, l, k, p),
        is_flip(m, m2, x, u, l, k, p),
    ensures
        forall|i: int, s: int|
            0 <= i < m.len() && i != x && i != u && 0 <= s < 3 && m2[i].slot(s) != x && m2[i].slot(s) != u
                ==> #[trigger] edge_matched(m2, i, s),
{
    lemma_flip_others(m, m2, x, u, l, k, p);
    lemma_wf_links(m);
    lemma_wf_edges(m);
    let n = m.len() as int;
    assert forall|i: int, s: int|
        0 <= i < n && i != x && i != u && 0 <= s < 3 && m2[i].slot(s) != x && m2[i].slot(s) != u
        implies #[trigger] edge_matched(m2, i, s) by {
        let j = m2[i].slot(s);
        if j >= 0 {
            let j0 = m[i].slot(s);
            assert(j == j0);
            assert(edge_matched(m, i, s));
            assert(m2[j0].vertices == m[j0].vertices);
            assert(cells_distinct(m[j0], j0));
            assert forall|r: int| 0 <= r < 3 implies (m2[j0].slot(r) == i) == (m[j0].slot(r) == i) by {
            }
            assert(back_slot(m2[j0], i) == back_slot(m[j0], i));
        }
    }
}

/// The vertices of the two triangles a flip writes.
proof fn lemma_flip_pair_vertices_exact(m: Seq<Triangle>, m2: Seq<Triangle>, x: int, u: int, l: int, k: int, p: Point)
    requires
        flip_ready(m, x, u, l, k, p),
        is_flip(m, m2, x, u, l, k, p),
    ensures
        m2[x].vertices[0] == p && m2[x].vertices[1] == m[u].vertices[(k + 2) % 3] && m2[x].vertices[2]
            == m[x].vertices[(l + 2) % 3],
        m2[u].vertices[0] == p && m2[u].vertices[1] == m[x].vertices[(l + 1) % 3] && m2[u].vertices[2]
            == m[u].vertices[(k + 2) % 3],
{
    reveal(is_flip);
}

#[verifier::rlimit(100)]
proof fn lemma_flip_ranges(m: Seq<Triangle>, m2: Seq<Triangle>, x: int, u: int, l: int, k: int, p: Point)
    requires
        mesh_wf(m),
        m.len() <= usize::MAX,
        flip_ready(m, x, u, l, k, p),
        is_flip(m, m2, x, u, l, k, p),
    ensures
        mesh_in_range(m2),
        adjacency_in_bounds(m2),
        neighbors_distinct(m2),
{
    lemma_wf_links(m);
    let n = m.len() as int;
    let t = m[x];
    let w = m[u];
    let a1 = t.slot(l);
    let b1 = w.slot((k + 2) % 3);
    lemma_flip_others(m, m2, x, u, l, k, p);
    lemma_flip_pair(m, m2, x, u, l, k, p);
    assert forall|i: int| 0 <= i < n implies (#[trigger] m2[i]).in_range() by {
        if i != x && i != u {
            assert(m[i].in_range());
        }
    }
    assert forall|i: int, s: int| 0 <= i < n && 0 <= s < 3 implies #[trigger] m2[i].slot(s) < n by {
        if i != x && i != u {
            assert(m[i].slot(s) < n);
        } else {
            assert(s == 0 || s == 1 || s == 2);
        }
    }
    assert forall|i: int| 0 <= i < n implies cells_distinct(#[trigger] m2[i], i) by {
        if i != x && i != u {
            assert(cells_distinct(m[i], i));
            if i == b1 {
                if points_to(m[i], x) {
                    assert(points_to(t, i));
                }
            } else if i == a1 {
                if points_to(m[i], u) {
                    assert(points_to(w, i));
                }
            }
        }
    }
}

#[verifier::rlimit(100)]
proof fn lemma_flip_symmetric(m: Seq<Triangle>, m2: Seq<Triangle>, x: int, u: int, l: int, k: int, p: Point)
    requires
        mesh_wf(m),
        m.len() <= usize::MAX,
        flip_ready(m, x, u, l, k, p),
        is_flip(m, m2, x, u, l, k, p),
    ensures
        adjacency_symmetric(m2),
{
    lemma_wf_links(m);
    let n = m.len() as int;
    let t = m[x];
    let w = m[u];
    let a1 = t.slot(l);
    let a2 = t.slot((l + 2) % 3);
    let b1 = w.slot((k + 2) % 3);
    let b2 = w.slot((k + 1) % 3);
    lemma_flip_others(m, m2, x, u, l, k, p);
    lemma_flip_pair(m, m2, x, u, l, k, p);
    assert forall|i: int, s: int|
        0 <= i < n && 0 <= s < 3 && #[trigger] m2[i].slot(s) >= 0 implies points_to(m2[m2[i].slot(s)], i) by {
        let j = m2[i].slot(s);
        if i == x {
            assert(s == 0 || s == 1 || s == 2);
            if s == 1 {
                assert(points_to(m[b1], u));
            } else if s == 2 {
                assert(points_to(m[a2], x));
            }
        } else if i == u {
            assert(s == 0 || s == 1 || s == 2);
            if s == 0 {
                assert(points_to(m[a1], x));
            } else if s == 1 {
                assert(points_to(m[b2], u));
            }
        } else {
            let j0 = m[i].slot(s);
            assert(points_to(m[j0], i));
            if j == x {
                if !(i == b1 && j0 == u) {
                    assert(j0 == x);
                    assert(points_to(t, i));
                }
            } else if j == u {
                if !(i == a1 && j0 == x) {
                    assert(j0 == u);
                    assert(points_to(w, i));
                }
            } else {
                assert(j == j0);
                assert(j0 != x && j0 != u);
            }
        }
    }
}

/// After a flip, a triangle other than the two replaced ones that had a
/// locally Delaunay edge opposite `p` still has one.
proof fn lemma_flip_keeps_legal(m: Seq<Triangle>, m2: Seq<Triangle>, x: int, u: int, l: int, k: int, p: Point, y: int)
    requires
        mesh_wf(m),
        m.len() <= usize::MAX,
        flip_ready(m, x, u, l, k, p),
        is_flip(m, m2, x, u, l, k, p),
        0 <= y < m.len(),
        y != x && y != u,
        edge_legal(m, y, p),
    ensures
        edge_legal(m2, y, p),
{
    lemma_wf_triangle(m, y);
    lemma_flip_others(m, m2, x, u, l, k, p);
    lemma_flip_pair(m, m2, x, u, l, k, p);
    let lid = local_id(m[y], p);
    let s = (lid + 1) % 3;
    assert(m2[y].vertices == m[y].vertices);
    assert(local_id(m2[y], p) == lid);
    let z = m2[y].slot(s);
    if z == x {
        lemma_vertex_not_in_circle(m2[x].vertices[0], m2[x].vertices[1], m2[x].vertices[2], p);
    } else if z == u {
        lemma_vertex_not_in_circle(m2[u].vertices[0], m2[u].vertices[1], m2[u].vertices[2], p);
    } else if z >= 0 {
        assert(z == m[y].slot(s));
        assert(m2[z].vertices == m[z].vertices);
    }
}

/// Every triangle listed in `stack` has `p` as a vertex.
pub open spec fn stack_has_vertex(m: Seq<Triangle>, stack: Seq<usize>, p: Point) -> bool {
    forall|i: int| 0 <= i < stack.len() ==> m[#[trigger] stack[i] as int].has_vertex(p)
}

/// Every triangle listed in `stack` has `p` as a vertex and a locally
/// Delaunay edge opposite it.
pub open spec fn stack_legal(m: Seq<Triangle>, stack: Seq<usize>, p: Point) -> bool {
    forall|i: int| 0 <= i < stack.len() ==> edge_legal(m, #[trigger] stack[i] as int, p)
}

/// Pushes `x`, then `y`, on the stack, each unless it is there already.
fn push_pair(stack: &mut Vec<usize>, x: usize, y: usize)
    ensures
        final(stack)@.contains(x),
        final(stack)@.contains(y),
        old(stack).len() <= final(stack).len() <= old(stack).len() + 2,
        forall|j: int| 0 <= j < old(stack).len() ==> final(stack)@[j] == old(stack)@[j],
        forall|j: int| old(stack).len() <= j < final(stack).len() ==> final(stack)@[j] == x || final(stack)@[j] == y,
{
    push_unique(stack, x);
    let ghost s1 = stack@;
    push_unique(stack, y);
    assert(stack@.contains(x)) by {
        let j = choose|j: int| 0 <= j < s1.len() && s1[j] == x;
        assert(stack@[j] == x);
    }
}

/// Pushes `x` on the stack unless it is there already.
fn push_unique(stack: &mut Vec<usize>, x: usize)
    ensures
        final(stack)@ == if old(stack)@.contains(x) {
            old(stack)@
        } else {
            old(stack)@.push(x)
        },
        final(stack)@.contains(x),
{
    if !stack_contains(stack, x) {
        stack.push(x);
        assert(stack@[stack@.len() - 1] == x);
    }
}

/// Whether `x` is on the stack.
fn stack_contains(stack: &Vec<usize>, x: usize) -> (r: bool)
    ensures
        r == stack@.contains(x),
{
    let mut i: usize = 0;
    while i < stack.len()
        invariant
            0 <= i <= stack.len(),
            forall|j: int| 0 <= j < i ==> stack@[j] != x,
        decreases stack.len() - i,
    {
        if stack[i] == x {
            return true;
        }
        i += 1;
    }
    false
}

/// Restores the Delaunay property around the freshly inserted `point` by
/// edge flips.
///
/// Triangles are popped from `stack` (last in, first out). For each, the
/// edge opposite `point` is examined; when `point` lies strictly inside the
/// circumcircle of the triangle across it, the shared edge is flipped so
/// that it ends at `point`, both triangles keep their indices, and both go
/// back on the stack unless already there.
///
/// Terminates because every flip gives `point` to one more triangle.
///
/// Each flip is one call of `flip_edge`. The mesh stays well formed, every
/// triangle counter-clockwise (every flip happens inside a convex
/// quadrilateral, `lemma_flip_convex`), and when every edge on the stack
/// is already legal nothing changes.
///
/// Fails with `EmptyLegalizationStack` when the stack is empty, and with
/// `InconsistentAdjacency` exactly when some triangle on the stack does not
/// have `point` as a vertex; in both cases nothing changes. Otherwise it
/// succeeds with an empty stack.
#[verifier::rlimit(100)]
pub fn deal_with_delaunay_condition(stack: &mut Vec<usize>, triangles: &mut Vec<Triangle>, point: &Point) -> (r: Result<(), MeshError>)
    requires
        mesh_wf(old(triangles)@),
        point.in_range(),
        forall|i: int| 0 <= i < old(stack).len() ==> old(stack)@[i] < old(triangles).len(),
    ensures
        final(triangles).len() == old(triangles).len(),
        mesh_wf(final(triangles)@),
        (r == Err::<(), MeshError>(MeshError::EmptyLegalizationStack)) == (old(stack).len() == 0),
        (r == Err::<(), MeshError>(MeshError::InconsistentAdjacency)) == (old(stack).len() > 0
            && !stack_has_vertex(old(triangles)@, old(stack)@, *point)),
        r is Ok == (old(stack).len() > 0 && stack_has_vertex(old(triangles)@, old(stack)@, *point)),
        r is Err ==> final(triangles)@ == old(triangles)@,
        r is Ok ==> final(stack).len() == 0,
        forall|q: Point| #[trigger] is_mesh_vertex(final(triangles)@, q) == is_mesh_vertex(old(triangles)@, q),
        r is Ok && legal_except(old(triangles)@, old(stack)@, *point) ==> legal_around(final(triangles)@, *point),
        stack_legal(old(triangles)@, old(stack)@, *point) ==> final(triangles)@ == old(triangles)@,
{
    if stack.len() == 0 {
        return Err(MeshError::EmptyLegalizationStack);
    }
    let mut i: usize = 0;
    while i < stack.len()
        invariant
            0 <= i <= stack.len(),
            triangles@ == old(triangles)@,
            stack@ == old(stack)@,
            mesh_wf(triangles@),
            forall|j: int| 0 <= j < stack.len() ==> stack@[j] < triangles.len(),
            forall|j: int| 0 <= j < i ==> triangles@[#[trigger] stack@[j] as int].has_vertex(*point),
        decreases stack.len() - i,
    {
        if triangles[stack[i]].find_point_in_triangle_vertices(point).is_none() {
            return Err(MeshError::InconsistentAdjacency);
        }
        i += 1;
    }
    let ghost m0 = triangles@;
    let ghost s0 = stack@;
    let ghost start_legal = legal_except(m0, stack@, *point);
    let ghost all_legal = stack_legal(m0, s0, *point);
    let n = triangles.len();
    loop
        invariant
            triangles.len() == n,
            old(triangles).len() == n,
            old(stack).len() > 0,
            m0 == old(triangles)@,
            s0 == old(stack)@,
            stack_has_vertex(m0, s0, *point),
            stack_has_vertex(triangles@, stack@, *point),
            all_legal == stack_legal(m0, s0, *point),
            all_legal ==> triangles@ == m0 && stack.len() <= s0.len() && stack@ == s0.subrange(0, stack.len() as int),
            start_legal == legal_except(old(triangles)@, old(stack)@, *point),
            forall|q: Point| #[trigger] is_mesh_vertex(triangles@, q) == is_mesh_vertex(old(triangles)@, q),
            mesh_wf(triangles@),
            point.in_range(),
            forall|i: int| 0 <= i < stack.len() ==> stack@[i] < n,
            start_legal ==> legal_except(triangles@, stack@, *point),
        decreases n - count_with_vertex(triangles@, *point), stack.len(),
    {
        proof {
            lemma_count_bound(triangles@, *point);
        }
        let ghost m = triangles@;
        let ghost s_before = stack@;
        let x = match stack.pop() {
            None => {
                proof {
                    if start_legal {
                        lemma_legal_empty(m, stack@, *point);
                    }
                }
                return Ok(());
            },
            Some(x) => x,
        };
        assert(s_before =~= stack@.push(x));
        assert(x < n) by {
            assert(s_before[s_before.len() - 1] == x);
        }
        let t = triangles[x];
        proof {
            lemma_wf_triangle(m, x as int);
        }
        let l = match t.find_point_in_triangle_vertices(point) {
            None => {
                proof {
                    // unreachable: every triangle on the stack has the point
                    assert(s_before[s_before.len() - 1] == x);
                    assert(false);
                }
                return Err(MeshError::InconsistentAdjacency);
            },
            Some(l) => l,
        };
        assert(l as int == local_id(t, *point));
        let u = match t.find_face_opposite_to(l) {
            Some(Neighbor::Cell(u)) => u,
            _ => {
                proof {
                    if start_legal {
                        lemma_legal_after_pop(m, s_before, stack@, x as int, *point);
                    }
                }
                continue;
            },
        };
        assert(t.slot((l + 1) % 3) == u);
        assert(u < n);
        let w = triangles[u];
        proof {
            lemma_wf_triangle(m, u as int);
        }
        if !w.is_point_in_circumucircle(point) {
            proof {
                if start_legal {
                    lemma_legal_after_pop(m, s_before, stack@, x as int, *point);
                }
            }
            continue;
        }
        let op = match w.find_point_local_id_opposite_to(x) {
            None => {
                proof {
                    // unreachable: `w` is named by `t`, so it names `t` back
                    lemma_wf_links(m);
                    assert(points_to(w, x as int));
                    assert(false);
                }
                return Err(MeshError::InconsistentAdjacency);
            },
            Some(op) => op,
        };
        let k = (op + 1) % 3;
        assert(w.slot(k as int) == x);
        proof {
            lemma_wf_edges(m);
            assert(edge_matched(m, x as int, (l + 1) % 3));
            assert(back_slot(w, x as int) == k);
            lemma_flip_no_conflict(m, x as int, u as int, l as int, k as int, *point);
            if all_legal {
                // every edge on the stack is legal, so no flip is ever reached
                let j = s_before.len() - 1;
                assert(s_before[j] == x);
                assert(s0[j] == x);
                assert(edge_legal(m0, x as int, *point));
                assert(false);
            }
        }
        proof {
            if w.has_vertex(*point) {
                lemma_vertex_not_in_circle(w.vertices[0], w.vertices[1], w.vertices[2], *point);
            }
        }
        flip_edge(triangles, point, x, u, l, k);
        let ghost m2 = triangles@;
        let ghost s_popped = stack@;
        push_pair(stack, x, u);
        proof {
            assert forall|y: int| 0 <= y < stack.len() implies stack@[y] < n by {
                if y < s_popped.len() {
                    assert(stack@[y] == s_popped[y]);
                }
            }
            assert(!m[u as int].has_vertex(*point));
            assert(count_with_vertex(m2, *point) >= count_with_vertex(m, *point) + 1);
            lemma_count_bound(m2, *point);
            assert(triangles@ == m2);
            lemma_flip_others(m, m2, x as int, u as int, l as int, k as int, *point);
            lemma_flip_pair(m, m2, x as int, u as int, l as int, k as int, *point);
            assert forall|j: int| 0 <= j < stack.len() implies triangles@[#[trigger] stack@[j] as int].has_vertex(*point) by {
                if j < s_popped.len() {
                    assert(stack@[j] == s_before[j]);
                    if stack@[j] != x && stack@[j] != u {
                        assert(m2[stack@[j] as int].vertices == m[stack@[j] as int].vertices);
                    }
                }
            }
            if start_legal {
                lemma_flip_legal(m, m2, x as int, u as int, l as int, k as int, *point, s_before, s_popped, stack@);
            }
        }
    }
}

/// Flips the edge between the triangles at `x` and `u`: the two are
/// rewritten in place so that the shared edge joins `point` to the far
/// vertex of `u`, and the two outside neighbours whose edge changed owner
/// are relinked. Each flip that `deal_with_delaunay_condition` makes is
/// one call of this function, described exactly by `is_flip`.
pub fn flip_edge(triangles: &mut Vec<Triangle>, point: &Point, x: usize, u: usize, l: usize, k: usize)
    requires
        mesh_wf(old(triangles)@),
        flip_ready(old(triangles)@, x as int, u as int, l as int, k as int, *point),
    ensures
        is_flip(old(triangles)@, final(triangles)@, x as int, u as int, l as int, k as int, *point),
        mesh_wf(final(triangles)@),
        final(triangles).len() == old(triangles).len(),
        forall|q: Point| #[trigger] is_mesh_vertex(final(triangles)@, q) == is_mesh_vertex(old(triangles)@, q),
        !old(triangles)@[u as int].has_vertex(*point) ==> count_with_vertex(final(triangles)@, *point)
            >= count_with_vertex(old(triangles)@, *point) + 1,
{
    let ghost m = triangles@;
    let n = triangles.len();
    let t = triangles[x];
    let w = triangles[u];
    let op = (k + 2) % 3;
    let a1 = t.adjacencies[l];
    let a2 = t.adjacencies[(l + 2) % 3];
    let b1 = w.adjacencies[op];
    let b2 = w.adjacencies[(k + 1) % 3];
    let new_triangle_1 = build_triangle(
        [*point, w.vertices[op], t.vertices[(l + 2) % 3]],
        [Some(Neighbor::Cell(u)), b1, a2],
    );
    proof {
        lemma_wf_triangle(m, x as int);
        lemma_wf_triangle(m, u as int);
        lemma_flip_ready_facts(m, x as int, u as int, l as int, k as int, *point);
    }
    relink(triangles, b1, u, x);
    let new_triangle_2 = build_triangle(
        [*point, t.vertices[(l + 1) % 3], w.vertices[op]],
        [a1, b2, Some(Neighbor::Cell(x))],
    );
    relink(triangles, a1, x, u);
    triangles.set(x, new_triangle_1);
    triangles.set(u, new_triangle_2);
    proof {
        let m2 = triangles@;
        assert(m2[x as int].vertices@ =~= seq![*point, w.vertices[op as int], t.vertices[(l + 2) % 3]]);
        assert(m2[x as int].adjacencies@ =~= seq![Some(Neighbor::Cell(u)), w.adjacencies[op as int], t.adjacencies[(l + 2) % 3]]);
        assert(m2[u as int].vertices@ =~= seq![*point, t.vertices[(l + 1) % 3], w.vertices[op as int]]);
        assert(m2[u as int].adjacencies@ =~= seq![t.adjacencies[l as int], w.adjacencies[(k + 1) % 3], Some(Neighbor::Cell(x))]);
        reveal(is_flip);
        assert(is_flip(m, m2, x as int, u as int, l as int, k as int, *point));
        lemma_flip_wf(m, m2, x as int, u as int, l as int, k as int, *point);
        lemma_flip_vertices(m, m2, x as int, u as int, l as int, k as int, *point);
        if !m[u as int].has_vertex(*point) {
            lemma_flip_count(m, m2, x as int, u as int, l as int, k as int, *point);
        }
    }
}

/// A flip keeps the set of vertices of the mesh.
proof fn lemma_flip_vertices(m: Seq<Triangle>, m2: Seq<Triangle>, x: int, u: int, l: int, k: int, p: Point)
    requires
        mesh_wf(m),
        flip_ready(m, x, u, l, k, p),
        is_flip(m, m2, x, u, l, k, p),
    ensures
        forall|q: Point| #[trigger] is_mesh_vertex(m2, q) == is_mesh_vertex(m, q),
{
    lemma_flip_others(m, m2, x, u, l, k, p);
    reveal(is_flip);
    let t = m[x];
    let w = m[u];
    let op = (k + 2) % 3;
    let l1 = (l + 1) % 3;
    let l2 = (l + 2) % 3;
    assert(0 <= op < 3 && 0 <= l1 < 3 && 0 <= l2 < 3);
    assert(m2[x].vertices[0] == t.vertices[l] && m2[x].vertices[1] == w.vertices[op] && m2[x].vertices[2] == t.vertices[l2]);
    assert(m2[u].vertices[0] == t.vertices[l] && m2[u].vertices[1] == t.vertices[l1] && m2[u].vertices[2] == w.vertices[op]);
    assert(l == 0 || l == 1 || l == 2);
    assert(op == 0 || op == 1 || op == 2);
    assert forall|q: Point| #[trigger] is_mesh_vertex(m2, q) implies is_mesh_vertex(m, q) by {
        let i = choose|i: int| 0 <= i < m2.len() && #[trigger] m2[i].has_vertex(q);
        if i == x || i == u {
            if q == w.vertices[op] {
                assert(m[u].has_vertex(q));
            } else {
                assert(m[x].has_vertex(q));
            }
        } else {
            assert(m2[i].vertices == m[i].vertices);
            assert(m[i].has_vertex(q));
        }
    }
    assert(k == 0 || k == 1 || k == 2);
    assert forall|q: Point| #[trigger] is_mesh_vertex(m, q) implies is_mesh_vertex(m2, q) by {
        let i = choose|i: int| 0 <= i < m.len() && #[trigger] m[i].has_vertex(q);
        if i == x || i == u {
            if q == t.vertices[l1] {
                assert(m2[u].has_vertex(q));
            } else {
                assert(m2[x].has_vertex(q));
            }
        } else {
            assert(m2[i].vertices == m[i].vertices);
            assert(m2[i].has_vertex(q));
        }
    }
}

/// A flip gives `p` to one more triangle.
proof fn lemma_flip_count(m: Seq<Triangle>, m2: Seq<Triangle>, x: int, u: int, l: int, k: int, p: Point)
    requires
        mesh_wf(m),
        m.len() <= usize::MAX,
        flip_ready(m, x, u, l, k, p),
        is_flip(m, m2, x, u, l, k, p),
        !m[u].has_vertex(p),
    ensures
        count_with_vertex(m2, p) >= count_with_vertex(m, p) + 1,
{
    lemma_flip_pair(m, m2, x, u, l, k, p);
    lemma_flip_others(m, m2, x, u, l, k, p);
    assert forall|i: int| 0 <= i < m.len() && (#[trigger] m[i]).has_vertex(p) implies m2[i].has_vertex(p) by {
        if i != x && i != u {
        }
    }
    lemma_count_grows(m, m2, p, u);
}

/// After a flip, with both flipped triangles back on the stack, every
/// triangle off the stack that has vertex `p` is still locally Delaunay.
proof fn lemma_flip_legal(
    m: Seq<Triangle>,
    m2: Seq<Triangle>,
    x: int,
    u: int,
    l: int,
    k: int,
    p: Point,
    s_before: Seq<usize>,
    s_popped: Seq<usize>,
    s_after: Seq<usize>,
)
    requires
        mesh_wf(m),
        m.len() <= usize::MAX,
        flip_ready(m, x, u, l, k, p),
        is_flip(m, m2, x, u, l, k, p),
        legal_except(m, s_before, p),
        s_before == s_popped.push(x as usize),
        s_after.contains(x as usize),
        s_after.contains(u as usize),
        forall|j: int| 0 <= j < s_popped.len() ==> s_after[j] == s_popped[j],
        s_popped.len() <= s_after.len(),
    ensures
        legal_except(m2, s_after, p),
{
    reveal(legal_except);
    lemma_flip_pair(m, m2, x, u, l, k, p);
    lemma_flip_others(m, m2, x, u, l, k, p);
    assert forall|y: int|
        0 <= y < m2.len() && (#[trigger] m2[y]).has_vertex(p) && !s_after.contains(y as usize) implies edge_legal(m2, y, p) by {
        assert(y != x && y != u);
        assert(m[y].has_vertex(p));
        assert(!s_before.contains(y as usize)) by {
            if s_before.contains(y as usize) {
                let j = choose|j: int| 0 <= j < s_before.len() && s_before[j] == y as usize;
                if j < s_popped.len() {
                    assert(s_popped[j] == y as usize);
                    assert(s_after[j] == y as usize);
                }
            }
        }
        lemma_flip_keeps_legal(m, m2, x, u, l, k, p, y);
    }
}

/// With nothing left pending, every triangle with vertex `p` is legal.
proof fn lemma_legal_empty(m: Seq<Triangle>, pending: Seq<usize>, p: Point)
    requires
        legal_except(m, pending, p),
        pending.len() == 0,
    ensures
        legal_around(m, p),
{
    reveal(legal_except);
    assert forall|y: int| 0 <= y < m.len() && (#[trigger] m[y]).has_vertex(p) implies edge_legal(m, y, p) by {
        assert(!pending.contains(y as usize));
    }
}

/// Popping `x` from `s_before`, with the edge of `x` opposite `p` legal,
/// keeps every triangle off the stack legal.
proof fn lemma_legal_after_pop(m: Seq<Triangle>, s_before: Seq<usize>, s_after: Seq<usize>, x: int, p: Point)
    requires
        legal_except(m, s_before, p),
        m.len() <= usize::MAX,
        s_before == s_after.push(x as usize),
        0 <= x < m.len(),
        edge_legal(m, x, p),
    ensures
        legal_except(m, s_after, p),
{
    reveal(legal_except);
    assert forall|y: int| 0 <= y < m.len() && (#[trigger] m[y]).has_vertex(p) && !s_after.contains(y as usize) implies edge_legal(m, y, p) by {
        if y != x {
            if s_before.contains(y as usize) {
                let j = choose|j: int| 0 <= j < s_before.len() && s_before[j] == y as usize;
                assert(s_after[j] == y as usize);
            }
        }
    }
}

} // verus!
