//! Stripping the enclosing triangle from a finished mesh.
use vstd::prelude::*;

use crate::mesh::{is_ccw, lemma_wf_triangle, 
    adjacency_in_bounds, adjacency_symmetric, back_slot, cells_distinct, edge_matched,
    edges_matched, lemma_wf_edges, lemma_wf_intro, lemma_wf_links, mesh_in_range, mesh_wf,
    neighbors_distinct, points_to,
};
use crate::neighbor::Neighbor;
use crate::triangle::{cell_of, names_cell, Triangle};

verus! {

/// `t` has a vertex of `big`.
pub open spec fn touches(t: Triangle, big: Triangle) -> bool {
    big.has_vertex(t.vertices[0]) || big.has_vertex(t.vertices[1]) || big.has_vertex(t.vertices[2])
}

/// `t` has the vertices of a triangle of `m` that does not touch `big`.
pub open spec fn kept_from(t: Triangle, m: Seq<Triangle>, big: Triangle) -> bool {
    exists|o: int| 0 <= o < m.len() && !touches(m[o], big) && t.vertices == m[o].vertices
}

/// The slot `n` of a kept triangle once the removal is done, `pos` giving
/// the new index of each old triangle or -1 for a removed one: a reference
/// to a kept triangle follows it to its new index, one to a removed
/// triangle becomes `None`, and an empty or boundary slot stays as it is.
pub open spec fn remapped(n: Option<Neighbor>, pos: Seq<int>) -> Option<Neighbor> {
    if cell_of(n) >= 0 {
        if pos[cell_of(n)] >= 0 {
            Some(Neighbor::Cell(pos[cell_of(n)] as usize))
        } else {
            None
        }
    } else {
        n
    }
}

/// `m1` is `m0` without the triangles that touch `big`: `pos` sends each
/// old index to its new one, or to -1 exactly for the removed triangles,
/// `orig` sends each new index back, and each kept triangle keeps its
/// vertices in order and has its slots `remapped`.
pub open spec fn removal_map(m0: Seq<Triangle>, m1: Seq<Triangle>, big: Triangle, pos: Seq<int>, orig: Seq<int>) -> bool {
    &&& pos.len() == m0.len()
    &&& orig.len() == m1.len()
    &&& forall|o: int| 0 <= o < m0.len() ==> -1 <= #[trigger] pos[o] < m1.len() && (pos[o] < 0 <==> touches(m0[o], big))
    &&& forall|j: int| 0 <= j < m1.len() ==> 0 <= #[trigger] orig[j] < m0.len() && pos[orig[j]] == j
    &&& forall|j: int| 0 <= j < m1.len() ==> (#[trigger] m1[j]).vertices == m0[orig[j]].vertices
    &&& forall|j: int, k: int|
        0 <= j < m1.len() && 0 <= k < 3 ==> #[trigger] m1[j].adjacencies[k] == remapped(m0[orig[j]].adjacencies[k], pos)
}

/// One removal step keeps the adjacency part of the map.
proof fn lemma_remove_step_map(
    m0: Seq<Triangle>,
    m: Seq<Triangle>,
    m2: Seq<Triangle>,
    i: int,
    orig: Seq<int>,
    pos: Seq<int>,
    orig2: Seq<int>,
    pos2: Seq<int>,
)
    requires
        adjacency_in_bounds(m0),
        m0.len() <= usize::MAX,
        0 <= i < m.len(),
        m.len() <= m0.len(),
        m2.len() == m.len() - 1,
        orig.len() == m.len(),
        pos.len() == m0.len(),
        forall|j: int| 0 <= j < m.len() ==> 0 <= #[trigger] orig[j] < m0.len() && pos[orig[j]] == j,
        forall|o: int| 0 <= o < m0.len() ==> -1 <= #[trigger] pos[o] < m.len(),
        forall|o: int| 0 <= o < m0.len() && #[trigger] pos[o] >= 0 ==> orig[pos[o]] == o,
        forall|j: int, k: int|
            0 <= j < m.len() && 0 <= k < 3 ==> #[trigger] m[j].adjacencies[k] == remapped(m0[orig[j]].adjacencies[k], pos),
        forall|j: int, s: int|
            0 <= j < m2.len() && 0 <= s < 3 ==> #[trigger] m2[j].adjacencies[s] == detached(
                m[swapped_from(j, i, m.len() as int)].adjacencies[s],
                i,
                m.len() - 1,
            ),
        orig2 == orig.update(i, orig[m.len() - 1]).drop_last(),
        pos2 == if i == m.len() - 1 {
            pos.update(orig[i], -1)
        } else {
            pos.update(orig[i], -1).update(orig[m.len() - 1], i)
        },
    ensures
        forall|j: int, k: int|
            0 <= j < m2.len() && 0 <= k < 3 ==> #[trigger] m2[j].adjacencies[k] == remapped(m0[orig2[j]].adjacencies[k], pos2),
        forall|j: int| 0 <= j < m2.len() ==> 0 <= #[trigger] orig2[j] < m0.len() && pos2[orig2[j]] == j,
{
    let n = m.len() as int;
    let gone = orig[i];
    let moved = orig[n - 1];
    assert forall|j: int| 0 <= j < m2.len() implies 0 <= #[trigger] orig2[j] < m0.len() && pos2[orig2[j]] == j by {
        let sj = swapped_from(j, i, n);
        assert(orig2[j] == orig[sj]);
        if sj != n - 1 {
            assert(orig[sj] != gone);
            assert(orig[sj] != moved);
        }
    }
    assert forall|j: int, k: int| 0 <= j < m2.len() && 0 <= k < 3 implies #[trigger] m2[j].adjacencies[k]
        == remapped(m0[orig2[j]].adjacencies[k], pos2) by {
        let sj = swapped_from(j, i, n);
        assert(orig2[j] == orig[sj]);
        let a = m0[orig[sj]].adjacencies[k];
        let v = m[sj].adjacencies[k];
        assert(v == remapped(a, pos));
        let o = cell_of(a);
        assert(0 <= sj < n);
        assert(0 <= orig[sj] < m0.len());
        assert(m0[orig[sj]].slot(k) < m0.len());
        assert(m2[j].adjacencies[k] == detached(v, i, n - 1));
        assert(pos[gone] == i && pos[moved] == n - 1);
        if i != n - 1 {
            assert(gone != moved);
        }
        if o >= 0 {
            assert(o < m0.len());
            let q = pos[o];
            if q >= 0 {
                assert(orig[q] == o);
                assert(v == Some(Neighbor::Cell(q as usize)));
                if q == i {
                    assert(o == gone);
                    assert(pos2[o] == -1);
                    assert(detached(v, i, n - 1) == None::<Neighbor>);
                } else if q == n - 1 {
                    assert(o == moved);
                    assert(pos2[o] == i);
                    assert(detached(v, i, n - 1) == Some(Neighbor::Cell(i as usize)));
                } else {
                    assert(o != gone && o != moved);
                    assert(pos2[o] == q);
                    assert(cell_of(v) == q);
                    assert(detached(v, i, n - 1) == v);
                }
            } else {
                assert(o != gone && o != moved);
                assert(pos2[o] == q);
                assert(v == None::<Neighbor>);
            }
        } else {
            assert(v == a);
        }
    }
}

/// The slot `n` once the triangle at `gone` is removed and the last one, at
/// `last`, is moved into its place.
pub open spec fn detached(n: Option<Neighbor>, gone: int, last: int) -> Option<Neighbor> {
    if cell_of(n) == gone {
        None
    } else if cell_of(n) == last {
        Some(Neighbor::Cell(gone as usize))
    } else {
        n
    }
}

/// Where the triangle now at `j` was before the triangle at `gone` was
/// swapped out with the last one.
pub open spec fn swapped_from(j: int, gone: int, len: int) -> int {
    if j == gone {
        len - 1
    } else {
        j
    }
}

/// Clears every reference to the triangle at `gone` and redirects every
/// reference to the last triangle to `gone`.
fn detach(triangles: &mut Vec<Triangle>, gone: usize)
    requires
        gone < old(triangles).len(),
    ensures
        final(triangles).len() == old(triangles).len(),
        forall|x: int|
            0 <= x < old(triangles).len() ==> (#[trigger] final(triangles)@[x]).vertices
                == old(triangles)@[x].vertices,
        forall|x: int, s: int|
            0 <= x < old(triangles).len() && 0 <= s < 3
                ==> #[trigger] final(triangles)@[x].adjacencies[s] == detached(
                old(triangles)@[x].adjacencies[s],
                gone as int,
                old(triangles).len() - 1,
            ),
{
    let ghost m = triangles@;
    let n = triangles.len();
    let last = n - 1;
    let mut x: usize = 0;
    while x < n
        invariant
            0 <= x <= n,
            n == m.len(),
            last == n - 1,
            gone < n,
            triangles.len() == n,
            forall|y: int| 0 <= y < n ==> (#[trigger] triangles@[y]).vertices == m[y].vertices,
            forall|y: int, s: int|
                0 <= y < x && 0 <= s < 3 ==> #[trigger] triangles@[y].adjacencies[s] == detached(
                    m[y].adjacencies[s],
                    gone as int,
                    last as int,
                ),
            forall|y: int| x <= y < n ==> #[trigger] triangles@[y] == m[y],
        decreases n - x,
    {
        let mut t = triangles[x];
        let ghost t0 = t;
        let mut j: usize = 0;
        while j < 3
            invariant
                0 <= j <= 3,
                gone < n,
                last == n - 1,
                t.vertices == t0.vertices,
                forall|k: int| 0 <= k < j ==> #[trigger] t.adjacencies[k] == detached(t0.adjacencies[k], gone as int, last as int),
                forall|k: int| j <= k < 3 ==> #[trigger] t.adjacencies[k] == t0.adjacencies[k],
            decreases 3 - j,
        {
            if names_cell(t.adjacencies[j], gone) {
                t.set_adjacency(j, None);
            } else if names_cell(t.adjacencies[j], last) {
                t.set_adjacency(j, Some(Neighbor::Cell(gone)));
            }
            j += 1;
        }
        triangles.set(x, t);
        x += 1;
    }
}

/// Removing the triangle at `gone` by swapping the last one into its place,
/// with every reference fixed up, keeps the mesh well formed.
proof fn lemma_remove_wf(m: Seq<Triangle>, m2: Seq<Triangle>, gone: int)
    requires
        mesh_wf(m),
        0 <= gone < m.len(),
        m2.len() == m.len() - 1,
        forall|j: int| 0 <= j < m2.len() ==> (#[trigger] m2[j]).vertices == m[swapped_from(j, gone, m.len() as int)].vertices,
        forall|j: int, s: int|
            0 <= j < m2.len() && 0 <= s < 3 ==> #[trigger] m2[j].adjacencies[s] == detached(
                m[swapped_from(j, gone, m.len() as int)].adjacencies[s],
                gone,
                m.len() - 1,
            ),
    ensures
        mesh_wf(m2),
{
    lemma_remove_links(m, m2, gone);
    lemma_remove_edges(m, m2, gone);
    assert forall|j: int| 0 <= j < m2.len() implies is_ccw(#[trigger] m2[j]) by {
        lemma_wf_triangle(m, swapped_from(j, gone, m.len() as int));
    }
    lemma_wf_intro(m2);
}

/// Slot values after the removal, in terms of those before.
proof fn lemma_remove_slots(m: Seq<Triangle>, m2: Seq<Triangle>, gone: int)
    requires
        mesh_wf(m),
        0 <= gone < m.len(),
        m2.len() == m.len() - 1,
        forall|j: int| 0 <= j < m2.len() ==> (#[trigger] m2[j]).vertices == m[swapped_from(j, gone, m.len() as int)].vertices,
        forall|j: int, s: int|
            0 <= j < m2.len() && 0 <= s < 3 ==> #[trigger] m2[j].adjacencies[s] == detached(
                m[swapped_from(j, gone, m.len() as int)].adjacencies[s],
                gone,
                m.len() - 1,
            ),
    ensures
        forall|j: int, s: int| 0 <= j < m2.len() && 0 <= s < 3 ==> {
            let v0 = m[swapped_from(j, gone, m.len() as int)].slot(s);
            let v = #[trigger] m2[j].slot(s);
            &&& v0 == gone ==> v == -1
            &&& v0 == m.len() - 1 && v0 != gone ==> v == gone
            &&& v0 != gone && v0 != m.len() - 1 ==> v == v0
        },
{
    let n = m.len() as int;
    assert forall|j: int, s: int| 0 <= j < m2.len() && 0 <= s < 3 implies {
        let v0 = m[swapped_from(j, gone, n)].slot(s);
        let v = #[trigger] m2[j].slot(s);
        &&& v0 == gone ==> v == -1
        &&& v0 == n - 1 && v0 != gone ==> v == gone
        &&& v0 != gone && v0 != n - 1 ==> v == v0
    } by {
        assert(m2[j].adjacencies[s] == detached(m[swapped_from(j, gone, n)].adjacencies[s], gone, n - 1));
    }
}

/// After the removal every neighbour still shares the edge it is named
/// across.
#[verifier::rlimit(100)]
proof fn lemma_remove_edges(m: Seq<Triangle>, m2: Seq<Triangle>, gone: int)
    requires
        mesh_wf(m),
        0 <= gone < m.len(),
        m2.len() == m.len() - 1,
        forall|j: int| 0 <= j < m2.len() ==> (#[trigger] m2[j]).vertices == m[swapped_from(j, gone, m.len() as int)].vertices,
        forall|j: int, s: int|
            0 <= j < m2.len() && 0 <= s < 3 ==> #[trigger] m2[j].adjacencies[s] == detached(
                m[swapped_from(j, gone, m.len() as int)].adjacencies[s],
                gone,
                m.len() - 1,
            ),
    ensures
        edges_matched(m2),
{
    lemma_wf_links(m);
    lemma_wf_edges(m);
    lemma_remove_slots(m, m2, gone);
    let n = m.len() as int;
    assert forall|a: int, s: int| 0 <= a < m2.len() && 0 <= s < 3 implies #[trigger] edge_matched(m2, a, s) by {
        let b = m2[a].slot(s);
        if b >= 0 {
            let o = swapped_from(a, gone, n);
            let v0 = m[o].slot(s);
            assert(v0 >= 0 && v0 != gone);
            assert(swapped_from(b, gone, n) == v0);
            assert(o != gone);
            assert(edge_matched(m, o, s));
            assert(cells_distinct(m[v0], v0));
            assert forall|r: int| 0 <= r < 3 implies (m2[b].slot(r) == a) == (m[v0].slot(r) == o) by {
                let w0 = m[v0].slot(r);
                if w0 >= 0 && w0 != gone {
                    assert(swapped_from(m2[b].slot(r), gone, n) == w0);
                }
            }
            assert(back_slot(m2[b], a) == back_slot(m[v0], o));
        }
    }
}

/// The removal keeps the neighbour relation in bounds, symmetric and free
/// of repetitions.
#[verifier::rlimit(100)]
proof fn lemma_remove_links(m: Seq<Triangle>, m2: Seq<Triangle>, gone: int)
    requires
        mesh_wf(m),
        0 <= gone < m.len(),
        m2.len() == m.len() - 1,
        forall|j: int| 0 <= j < m2.len() ==> (#[trigger] m2[j]).vertices == m[swapped_from(j, gone, m.len() as int)].vertices,
        forall|j: int, s: int|
            0 <= j < m2.len() && 0 <= s < 3 ==> #[trigger] m2[j].adjacencies[s] == detached(
                m[swapped_from(j, gone, m.len() as int)].adjacencies[s],
                gone,
                m.len() - 1,
            ),
    ensures
        mesh_in_range(m2),
        adjacency_in_bounds(m2),
        adjacency_symmetric(m2),
        neighbors_distinct(m2),
{
    lemma_wf_links(m);
    lemma_remove_slots(m, m2, gone);
    let n = m.len() as int;
    assert forall|j: int| 0 <= j < m2.len() implies (#[trigger] m2[j]).in_range() by {
        assert(m[swapped_from(j, gone, n)].in_range());
    }
    assert forall|j: int, s: int| 0 <= j < m2.len() && 0 <= s < 3 implies #[trigger] m2[j].slot(s) < m2.len() by {
        assert(m[swapped_from(j, gone, n)].slot(s) < n);
    }
    assert forall|j: int| 0 <= j < m2.len() implies cells_distinct(#[trigger] m2[j], j) by {
        let o = swapped_from(j, gone, n);
        assert(cells_distinct(m[o], o));
    }
    assert forall|j: int, s: int|
        0 <= j < m2.len() && 0 <= s < 3 && #[trigger] m2[j].slot(s) >= 0 implies points_to(m2[m2[j].slot(s)], j) by {
        let o = swapped_from(j, gone, n);
        let b = m2[j].slot(s);
        let v0 = m[o].slot(s);
        assert(v0 >= 0 && v0 != gone);
        assert(swapped_from(b, gone, n) == v0);
        assert(points_to(m[v0], o));
        assert(o != gone);
    }
}

/// Removes every triangle that has a vertex of `big_triangle`, the
/// enclosing triangle the mesh was seeded with.
///
/// A triangle is removed by moving the last triangle into its place; every
/// reference to the removed one is cleared and every reference to the
/// moved one redirected. The result is described by `removal_map`: the
/// kept triangles, each once, with their vertices in order and every slot
/// renumbered, or `None` where it faced a removed triangle. When nothing
/// touches `big_triangle` the mesh is left as it is.
#[verifier::spinoff_prover]
#[verifier::rlimit(60)]
pub fn remove_big_triangle(triangles: &mut Vec<Triangle>, big_triangle: &Triangle)
    requires
        mesh_wf(old(triangles)@),
    ensures
        mesh_wf(final(triangles)@),
        final(triangles).len() <= old(triangles).len(),
        forall|j: int| 0 <= j < final(triangles).len() ==> !touches(#[trigger] final(triangles)@[j], *big_triangle),
        forall|j: int| 0 <= j < final(triangles).len() ==> kept_from(#[trigger] final(triangles)@[j], old(triangles)@, *big_triangle),
        forall|o: int| 0 <= o < old(triangles).len() && !touches(#[trigger] old(triangles)@[o], *big_triangle)
            ==> exists|j: int| 0 <= j < final(triangles).len() && final(triangles)@[j].vertices == old(triangles)@[o].vertices,
        exists|pos: Seq<int>, orig: Seq<int>| removal_map(old(triangles)@, final(triangles)@, *big_triangle, pos, orig),
        (forall|o: int| 0 <= o < old(triangles).len() ==> !touches(#[trigger] old(triangles)@[o], *big_triangle))
            ==> final(triangles)@ == old(triangles)@,
{
    proof {
        lemma_wf_links(triangles@);
    }
    let ghost m0 = triangles@;
    let n0 = triangles.len();
    assert(m0.len() == n0);
    let ghost mut orig: Seq<int> = Seq::new(m0.len(), |j: int| j);
    let ghost mut pos: Seq<int> = Seq::new(m0.len(), |j: int| j);
    let mut i: usize = 0;
    while i < triangles.len()
        invariant
            0 <= i <= triangles.len(),
            m0 == old(triangles)@,
            triangles.len() <= m0.len(),
            mesh_wf(triangles@),
            orig.len() == triangles.len(),
            pos.len() == m0.len(),
            forall|j: int| 0 <= j < triangles.len() ==> 0 <= #[trigger] orig[j] < m0.len() && triangles@[j].vertices == m0[orig[j]].vertices,
            forall|o: int| 0 <= o < m0.len() ==> -1 <= #[trigger] pos[o] < triangles.len(),
            forall|o: int| 0 <= o < m0.len() && #[trigger] pos[o] >= 0 ==> orig[pos[o]] == o,
            forall|o: int| 0 <= o < m0.len() && #[trigger] pos[o] < 0 ==> touches(m0[o], *big_triangle),
            forall|j: int| 0 <= j < i ==> !touches(#[trigger] triangles@[j], *big_triangle),
            adjacency_in_bounds(m0),
            m0.len() <= usize::MAX,
            forall|j: int| 0 <= j < triangles.len() ==> pos[#[trigger] orig[j]] == j,
            forall|j: int, k: int|
                0 <= j < triangles.len() && 0 <= k < 3 ==> #[trigger] triangles@[j].adjacencies[k] == remapped(m0[orig[j]].adjacencies[k], pos),
            (forall|o: int| 0 <= o < m0.len() ==> !touches(#[trigger] m0[o], *big_triangle)) ==> triangles@ == m0,
        decreases 2 * triangles.len() - i,
    {
        let t = triangles[i];
        let hit = big_triangle.find_point_in_triangle_vertices(&t.vertices[0]).is_some()
            || big_triangle.find_point_in_triangle_vertices(&t.vertices[1]).is_some()
            || big_triangle.find_point_in_triangle_vertices(&t.vertices[2]).is_some();
        if hit {
            proof {
                assert(touches(m0[orig[i as int]], *big_triangle));
            }
            let ghost m = triangles@;
            let ghost n = m.len() as int;
            detach(triangles, i);
            let ghost md = triangles@;
            triangles.swap_remove(i);
            proof {
                let m2 = triangles@;
                assert forall|j: int| 0 <= j < m2.len() implies (#[trigger] m2[j]).vertices == m[swapped_from(j, i as int, n)].vertices by {
                    assert(m2[j] == md[swapped_from(j, i as int, n)]);
                }
                assert forall|j: int, s: int| 0 <= j < m2.len() && 0 <= s < 3 implies #[trigger] m2[j].adjacencies[s] == detached(
                    m[swapped_from(j, i as int, n)].adjacencies[s], i as int, n - 1) by {
                    assert(m2[j] == md[swapped_from(j, i as int, n)]);
                }
                lemma_remove_wf(m, m2, i as int);
                let gone = orig[i as int];
                let orig2a = orig.update(i as int, orig[n - 1]).drop_last();
                let pos2a = if i as int == n - 1 {
                    pos.update(gone, -1)
                } else {
                    pos.update(gone, -1).update(orig[n - 1], i as int)
                };
                lemma_remove_step_map(m0, m, m2, i as int, orig, pos, orig2a, pos2a);
                let moved = orig[n - 1];
                assert(touches(m0[gone], *big_triangle)) by {
                    assert(m[i as int].vertices == m0[gone].vertices);
                }
                let orig2 = orig2a;
                let pos2 = pos2a;
                assert forall|o: int| 0 <= o < m0.len() && #[trigger] pos2[o] >= 0 implies orig2[pos2[o]] == o by {
                    if o == gone {
                    } else if o == moved && (i as int) < n - 1 {
                    } else {
                        assert(pos[o] != i as int && pos[o] != n - 1 || pos[o] != i as int);
                    }
                }
                orig = orig2;
                pos = pos2;
            }
        } else {
            i += 1;
        }
    }
    proof {
        assert forall|o: int| 0 <= o < m0.len() implies -1 <= #[trigger] pos[o] < triangles.len() && (pos[o] < 0 <==> touches(m0[o], *big_triangle)) by {
            if pos[o] >= 0 {
                assert(triangles@[pos[o]].vertices == m0[o].vertices);
                assert(!touches(triangles@[pos[o]], *big_triangle));
            }
        }
        assert(removal_map(m0, triangles@, *big_triangle, pos, orig));
        assert forall|j: int| 0 <= j < triangles.len() implies kept_from(#[trigger] triangles@[j], m0, *big_triangle) by {
            assert(triangles@[j].vertices == m0[orig[j]].vertices);
            assert(!touches(triangles@[j], *big_triangle));
            assert(!touches(m0[orig[j]], *big_triangle));
            let o = orig[j];
            assert(0 <= o < m0.len() && !touches(m0[o], *big_triangle) && triangles@[j].vertices == m0[o].vertices);
        }
        assert forall|o: int| 0 <= o < m0.len() && !touches(#[trigger] m0[o], *big_triangle)
            implies exists|j: int| 0 <= j < triangles.len() && triangles@[j].vertices == m0[o].vertices by {
            assert(pos[o] >= 0);
            assert(triangles@[pos[o]].vertices == m0[o].vertices);
        }
    }
}

} // verus!
