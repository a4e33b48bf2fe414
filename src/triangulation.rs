//! Triangulating a whole point set inside an enclosing triangle.
use vstd::prelude::*;

use crate::error::MeshError;
use crate::geometry::{lemma_strictly_inside, orient};
use crate::insertion::{insert_triangles, strictly_inside};
use crate::legalization::{deal_with_delaunay_condition, stack_has_vertex};
use crate::location::find_current_cell;
use crate::mesh::{lemma_wf_range, legal_around, is_ccw, 
    edge_legal, is_mesh_vertex, legal_except, lemma_wf_links, lemma_wf_triangle, mesh_wf,
};
use crate::point::Point;
use crate::triangle::{build_triangle, orientation, Cell, Triangle};

verus! {

/// Whether `p` is a vertex of some triangle of the mesh.
pub fn mesh_has_vertex(mesh: &Vec<Triangle>, p: &Point) -> (r: bool)
    ensures
        r == exists|i: int| 0 <= i < mesh.len() && (#[trigger] mesh@[i]).has_vertex(*p),
{
    let mut i: usize = 0;
    while i < mesh.len()
        invariant
            0 <= i <= mesh.len(),
            forall|j: int| 0 <= j < i ==> !(#[trigger] mesh@[j]).has_vertex(*p),
        decreases mesh.len() - i,
    {
        if mesh[i].find_point_in_triangle_vertices(p).is_some() {
            return true;
        }
        i += 1;
    }
    false
}

/// `p` is on none of the three lines through the edges of `t`.
pub open spec fn off_edges(t: Triangle, p: Point) -> bool {
    &&& orient(t.vertices[0], t.vertices[1], p) != 0
    &&& orient(t.vertices[1], t.vertices[2], p) != 0
    &&& orient(t.vertices[2], t.vertices[0], p) != 0
}

/// Whether `p` lies on none of the lines through the edges of `t`; for a
/// point inside `t` this means strictly inside.
pub fn is_off_edges(t: &Triangle, p: &Point) -> (r: bool)
    requires
        t.in_range(),
        p.in_range(),
    ensures
        r == off_edges(*t, *p),
{
    assert(t.vertices[0].in_range() && t.vertices[1].in_range() && t.vertices[2].in_range());
    orientation(&t.vertices[0], &t.vertices[1], p) != 0 && orientation(&t.vertices[1], &t.vertices[2], p) != 0
        && orientation(&t.vertices[2], &t.vertices[0], p) != 0
}

/// A single triangle with no neighbours is a well-formed mesh.
proof fn lemma_seed_wf(t: Triangle)
    requires
        t.in_range(),
        is_ccw(t),
        t.slot(0) < 0 && t.slot(1) < 0 && t.slot(2) < 0,
    ensures
        mesh_wf(seq![t]),
{
    reveal(mesh_wf);
    let m = seq![t];
    assert(m[0] == t);
}

/// After a split, the only triangles with the new vertex are the three
/// pieces, all pending.
proof fn lemma_split_pending(m0: Seq<Triangle>, m1: Seq<Triangle>, c: int, p: Point, ids: Seq<usize>)
    requires
        forall|i: int| 0 <= i < m0.len() ==> !(#[trigger] m0[i]).has_vertex(p),
        0 <= c < m0.len(),
        m0.len() + 2 <= usize::MAX,
        ids == seq![c as usize, m0.len() as usize, (m0.len() + 1) as usize],
        m1.len() == m0.len() + 2,
        forall|i: int| 0 <= i < m0.len() && i != c ==> (#[trigger] m1[i]).vertices == m0[i].vertices,
    ensures
        legal_except(m1, ids, p),
{
    reveal(legal_except);
    assert forall|x: int| 0 <= x < m1.len() && (#[trigger] m1[x]).has_vertex(p) && !ids.contains(x as usize)
        implies edge_legal(m1, x, p) by {
        if x == c {
            assert(ids[0] == x as usize);
        } else if x == m0.len() {
            assert(ids[1] == x as usize);
        } else if x == m0.len() + 1 {
            assert(ids[2] == x as usize);
        } else {
            assert(m0[x].has_vertex(p));
        }
    }
}

/// Locates `p` for insertion: the index of a triangle that contains it
/// strictly.
///
/// Fails with `PointNotLocated` when no triangle contains `p`, and with
/// `DegenerateGeometry` when `p` is already a vertex of the mesh or lies on
/// the line of an edge of the triangle that contains it.
#[verifier::spinoff_prover]
pub fn locate_for_insert(mesh: &Vec<Triangle>, p: &Point, start: usize) -> (r: Result<usize, MeshError>)
    requires
        mesh_wf(mesh@),
        p.in_range(),
    ensures
        match r {
            Ok(c) => c < mesh.len() && strictly_inside(mesh@[c as int], *p) && !is_mesh_vertex(mesh@, *p),
            Err(e) => (e == MeshError::PointNotLocated && forall|j: int|
                0 <= j < mesh.len() ==> !(#[trigger] mesh@[j]).contains(*p)) || e == MeshError::DegenerateGeometry,
        },
{
    proof {
        lemma_wf_range(mesh@);
    }
    let c = match find_current_cell(p, mesh, start) {
        Ok(c) => c,
        Err(e) => {
            return Err(e);
        },
    };
    proof {
        lemma_wf_triangle(mesh@, c as int);
    }
    if mesh_has_vertex(mesh, p) || !is_off_edges(&mesh[c], p) {
        return Err(MeshError::DegenerateGeometry);
    }
    proof {
        let t = mesh@[c as int];
        lemma_strictly_inside(t.vertices[0], t.vertices[1], t.vertices[2], *p);
    }
    Ok(c)
}

/// The three pieces of a split all have the new point, and they are the
/// only triangles that do.
proof fn lemma_split_stack(m0: Seq<Triangle>, m1: Seq<Triangle>, c: int, p: Point, ids: Seq<usize>)
    requires
        forall|i: int| 0 <= i < m0.len() ==> !(#[trigger] m0[i]).has_vertex(p),
        0 <= c < m0.len(),
        m0.len() + 2 <= usize::MAX,
        ids == seq![c as usize, m0.len() as usize, (m0.len() + 1) as usize],
        m1.len() == m0.len() + 2,
        forall|i: int| 0 <= i < m0.len() && i != c ==> (#[trigger] m1[i]).vertices == m0[i].vertices,
        forall|k: int| 0 <= k < 3 ==> (#[trigger] m1[ids[k] as int]).has_vertex(p),
    ensures
        legal_except(m1, ids, p),
        stack_has_vertex(m1, ids, p),
{
    lemma_split_pending(m0, m1, c, p, ids);
    assert forall|j: int| 0 <= j < ids.len() implies m1[#[trigger] ids[j] as int].has_vertex(p) by {
        assert(m1[ids[j] as int].has_vertex(p));
    }
}

/// Splits the triangle at `c`, which strictly contains `p`, around `p`
/// and legalizes the mesh around the new vertex.
#[verifier::spinoff_prover]
pub fn split_and_legalize(mesh: &mut Vec<Triangle>, p: &Point, c: usize)
    requires
        mesh_wf(old(mesh)@),
        p.in_range(),
        old(mesh).len() + 2 <= usize::MAX,
        c < old(mesh).len(),
        strictly_inside(old(mesh)@[c as int], *p),
        !is_mesh_vertex(old(mesh)@, *p),
    ensures
        final(mesh).len() == old(mesh).len() + 2,
        mesh_wf(final(mesh)@),
        forall|q: Point| #[trigger] is_mesh_vertex(final(mesh)@, q) == (is_mesh_vertex(old(mesh)@, q) || q == *p),
        legal_around(final(mesh)@, *p),
{
    let mut stack = split_pending(mesh, p, c);
    let r = deal_with_delaunay_condition(&mut stack, mesh, p);
    assert(r is Ok);
}

/// Splits the triangle at `c` around `p`; returns the three pieces, the
/// only triangles with vertex `p`.
#[verifier::spinoff_prover]
#[verifier::rlimit(40)]
fn split_pending(mesh: &mut Vec<Triangle>, p: &Point, c: usize) -> (r: Vec<usize>)
    requires
        mesh_wf(old(mesh)@),
        p.in_range(),
        old(mesh).len() + 2 <= usize::MAX,
        c < old(mesh).len(),
        strictly_inside(old(mesh)@[c as int], *p),
        !is_mesh_vertex(old(mesh)@, *p),
    ensures
        final(mesh).len() == old(mesh).len() + 2,
        mesh_wf(final(mesh)@),
        forall|q: Point| #[trigger] is_mesh_vertex(final(mesh)@, q) == (is_mesh_vertex(old(mesh)@, q) || q == *p),
        r.len() == 3,
        forall|i: int| 0 <= i < r.len() ==> r@[i] < final(mesh).len(),
        stack_has_vertex(final(mesh)@, r@, *p),
        legal_except(final(mesh)@, r@, *p),
{
    let ghost m0 = mesh@;
    proof {
        assert forall|i: int| 0 <= i < m0.len() implies !(#[trigger] m0[i]).has_vertex(*p) by {
            if m0[i].has_vertex(*p) {
                assert(is_mesh_vertex(m0, *p));
            }
        }
    }
    let n = mesh.len();
    let stack = insert_triangles(p, mesh, c);
    let ghost m1 = mesh@;
    proof {
        assert(stack@ == seq![c, n, (n + 1) as usize]);
        assert(m1.len() == n + 2);
        lemma_split_stack(m0, m1, c as int, *p, stack@);
        assert(stack@[0] < m1.len() && stack@[1] < m1.len() && stack@[2] < m1.len());
    }
    stack
}

/// Locates `p`, splits the triangle that contains it and legalizes around
/// it; returns the index of the triangle it was found in.
///
/// Fails with `PointNotLocated` when no triangle contains `p`, and with
/// `DegenerateGeometry` when `p` is already a vertex or lies on the line of
/// an edge of the triangle that contains it; the mesh is then unchanged.
pub fn insert_point(mesh: &mut Vec<Triangle>, p: &Point, start: usize) -> (r: Result<usize, MeshError>)
    requires
        mesh_wf(old(mesh)@),
        p.in_range(),
        old(mesh).len() + 2 <= usize::MAX,
    ensures
        match r {
            Ok(c) => {
                &&& final(mesh).len() == old(mesh).len() + 2
                &&& mesh_wf(final(mesh)@)
                &&& !is_mesh_vertex(old(mesh)@, *p)
                &&& forall|q: Point| #[trigger] is_mesh_vertex(final(mesh)@, q) == (is_mesh_vertex(old(mesh)@, q) || q == *p)
                &&& legal_around(final(mesh)@, *p)
            },
            Err(e) => {
                &&& e == MeshError::PointNotLocated || e == MeshError::DegenerateGeometry
                &&& final(mesh)@ == old(mesh)@
                &&& e == MeshError::PointNotLocated ==> forall|j: int| 0 <= j < old(mesh).len() ==> !(#[trigger] old(mesh)@[j]).contains(*p)
            },
        },
{
    let c = match locate_for_insert(mesh, p, start) {
        Ok(c) => c,
        Err(e) => {
            return Err(e);
        },
    };
    split_and_legalize(mesh, p, c);
    Ok(c)
}

/// Triangulates `vertices` inside `super_triangle`.
///
/// The mesh is seeded with the enclosing triangle; then each point in turn
/// is located, the triangle containing it is split in three, and the
/// Delaunay property is restored around it by edge flips. The enclosing
/// triangle's vertices stay in the result (see `remove_big_triangle`).
///
/// Fails with `PointNotLocated` when a point lies outside the mesh, with
/// `DegenerateGeometry` when a point repeats a vertex or lies on the line
/// of an edge of the triangle that contains it, and with
/// `InconsistentAdjacency` when legalization meets a neighbour relation
/// that a planar mesh cannot have.
#[verifier::rlimit(100)]
pub fn triangulate(vertices: &Vec<Point>, super_triangle: &Triangle) -> (r: Result<Vec<Triangle>, MeshError>)
    requires
        super_triangle.in_range(),
        forall|i: int| 0 <= i < vertices.len() ==> (#[trigger] vertices@[i]).in_range(),
        2 * vertices.len() + 1 <= usize::MAX,
    ensures
        match r {
            Ok(mesh) => {
                &&& mesh.len() == 2 * vertices.len() + 1
                &&& mesh_wf(mesh@)
                &&& forall|q: Point|
                    #[trigger] is_mesh_vertex(mesh@, q) == (super_triangle.has_vertex(q) || vertices@.contains(q))
                &&& forall|a: int, b: int| 0 <= a < b < vertices.len() ==> vertices@[a] != vertices@[b]
                &&& forall|a: int| 0 <= a < vertices.len() ==> !super_triangle.has_vertex(#[trigger] vertices@[a])
            },
            Err(e) => e == MeshError::PointNotLocated || e == MeshError::DegenerateGeometry,
        },
{
    if super_triangle.signed_area() <= 0 {
        return Err(MeshError::DegenerateGeometry);
    }
    let seed = build_triangle(super_triangle.vertices, [None, None, None]);
    let mut mesh: Vec<Triangle> = Vec::new();
    mesh.push(seed);
    proof {
        assert(mesh@ =~= seq![seed]);
        lemma_seed_wf(seed);
        assert forall|q: Point| #[trigger] is_mesh_vertex(mesh@, q) == (super_triangle.has_vertex(q)
            || vertices@.subrange(0, 0).contains(q)) by {
            if is_mesh_vertex(mesh@, q) {
                let j = choose|j: int| 0 <= j < mesh@.len() && #[trigger] mesh@[j].has_vertex(q);
                assert(j == 0);
            }
            if super_triangle.has_vertex(q) {
                assert(mesh@[0].has_vertex(q));
            }
        }
    }
    let mut current: usize = 0;
    let mut i: usize = 0;
    while i < vertices.len()
        invariant
            0 <= i <= vertices.len(),
            2 * vertices.len() + 1 <= usize::MAX,
            forall|j: int| 0 <= j < vertices.len() ==> (#[trigger] vertices@[j]).in_range(),
            mesh.len() == 2 * i + 1,
            mesh_wf(mesh@),
            forall|q: Point|
                #[trigger] is_mesh_vertex(mesh@, q) == (super_triangle.has_vertex(q) || vertices@.subrange(0, i as int).contains(q)),
            forall|a: int, b: int| 0 <= a < b < i ==> vertices@[a] != vertices@[b],
            forall|a: int| 0 <= a < i ==> !super_triangle.has_vertex(#[trigger] vertices@[a]),
        decreases vertices.len() - i,
    {
        let p = vertices[i];
        assert(vertices@[i as int].in_range());
        let ghost m0 = mesh@;
        let c = match insert_point(&mut mesh, &p, current) {
            Ok(c) => c,
            Err(e) => {
                return Err(e);
            },
        };
        proof {
            assert(!is_mesh_vertex(m0, p));
            assert forall|a: int| 0 <= a < i implies vertices@[a] != p by {
                assert(vertices@.subrange(0, i as int)[a] == vertices@[a]);
            }
            let before = vertices@.subrange(0, i as int);
            let after = vertices@.subrange(0, i + 1);
            assert forall|q: Point| #[trigger] is_mesh_vertex(mesh@, q) == (super_triangle.has_vertex(q) || after.contains(q)) by {
                if q == p {
                    assert(after[i as int] == p);
                } else if before.contains(q) {
                    let j = choose|j: int| 0 <= j < before.len() && before[j] == q;
                    assert(after[j] == q);
                }
                if after.contains(q) && q != p {
                    let j = choose|j: int| 0 <= j < after.len() && after[j] == q;
                    assert(j < i);
                    assert(before[j] == q);
                }
            }
        }
        current = c;
        i += 1;
    }
    proof {
        assert(vertices@.subrange(0, vertices@.len() as int) =~= vertices@);
    }
    Ok(mesh)
}

} // verus!
