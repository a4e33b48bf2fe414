use vstd::prelude::*;

use crate::error::MeshError;
use crate::geometry::{in_circle, included, lemma_mul_bound, orient, bary_den, bary_s, bary_t};
use crate::neighbor::Neighbor;
use crate::point::Point;
use crate::vector::Vector;

verus! {

/// The index named by an adjacency slot, or `-1` when the slot names no
/// triangle (it is empty or on the boundary).
pub open spec fn cell_of(n: Option<Neighbor>) -> int {
    match n {
        Some(Neighbor::Cell(j)) => j as int,
        _ => -1,
    }
}

/// A triangle of the mesh.
///
/// Edge `i` runs from `vertices[i]` to `vertices[(i + 1) % 3]`, and
/// `adjacencies[i]` names what lies across that edge; it is thus the
/// neighbour opposite `vertices[(i + 2) % 3]`.
#[derive(Debug, Clone, Copy)]
pub struct Triangle {
    pub vertices: [Point; 3],
    pub adjacencies: [Option<Neighbor>; 3],
}

/// The behaviour every cell shape of a mesh provides.
pub trait Cell {
    /// The cell's coordinates are small enough for the exact predicates.
    spec fn well_ranged(&self) -> bool;

    /// The closed cell contains `p`.
    spec fn contains(&self, p: Point) -> bool;

    /// Twice the signed area of the cell.
    spec fn double_area(&self) -> int;

    /// Whether the point is in the cell, its boundary included.
    fn includes(&self, point: &Point) -> (r: bool)
        requires
            self.well_ranged(),
            point.in_range(),
        ensures
            r == self.contains(*point),
    ;

    /// Twice the signed area, exactly: positive when the vertices turn
    /// counter-clockwise.
    fn signed_area(&self) -> (r: i128)
        requires
            self.well_ranged(),
        ensures
            r == self.double_area(),
    ;
}

impl Triangle {
    /// Every vertex lies within the coordinate limit.
    pub open spec fn in_range(self) -> bool {
        forall|k: int| 0 <= k < 3 ==> (#[trigger] self.vertices[k]).in_range()
    }

    /// `p` is one of the three vertices.
    pub open spec fn has_vertex(self, p: Point) -> bool {
        self.vertices[0] == p || self.vertices[1] == p || self.vertices[2] == p
    }

    /// `p` lies strictly inside the circumcircle.
    pub open spec fn circle_contains(self, p: Point) -> bool {
        in_circle(self.vertices[0], self.vertices[1], self.vertices[2], p)
    }

    /// The index named by slot `k`, or `-1`.
    pub open spec fn slot(self, k: int) -> int {
        cell_of(self.adjacencies[k])
    }

    /// The three edges as displacements: `v0 -> v1`, `v1 -> v2`, `v2 -> v0`.
    pub fn edges(&self) -> (r: [Vector; 3])
        requires
            self.in_range(),
        ensures
            forall|i: int|
                0 <= i < 3 ==> (#[trigger] r[i]).x == self.vertices[(i + 1) % 3].x - self.vertices[i].x
                    && r[i].y == self.vertices[(i + 1) % 3].y - self.vertices[i].y,
    {
        let v = self.vertices;
        assert(v[0].in_range() && v[1].in_range() && v[2].in_range());
        let r = [v[0].segment_to(&v[1]), v[1].segment_to(&v[2]), v[2].segment_to(&v[0])];
        assert forall|i: int| 0 <= i < 3 implies (#[trigger] r[i]).x == v[(i + 1) % 3].x - v[i].x
            && r[i].y == v[(i + 1) % 3].y - v[i].y by {
            assert(i == 0 || i == 1 || i == 2);
        }
        r
    }

    /// The displacements from each vertex to `point`.
    pub fn vertices_to(&self, point: &Point) -> (r: [Vector; 3])
        requires
            self.in_range(),
            point.in_range(),
        ensures
            forall|i: int|
                0 <= i < 3 ==> (#[trigger] r[i]).x == point.x - self.vertices[i].x && r[i].y == point.y
                    - self.vertices[i].y,
    {
        let v = self.vertices;
        assert(v[0].in_range() && v[1].in_range() && v[2].in_range());
        let r = [v[0].segment_to(point), v[1].segment_to(point), v[2].segment_to(point)];
        assert forall|i: int| 0 <= i < 3 implies (#[trigger] r[i]).x == point.x - v[i].x && r[i].y
            == point.y - v[i].y by {
            assert(i == 0 || i == 1 || i == 2);
        }
        r
    }

    /// Barycentric coordinates of `point`, as two numerators over a common
    /// denominator `(s, t, d)`: the weights are `s / d`, `t / d` and
    /// `(d - s - t) / d` for the first, second and third vertex.
    pub fn barycentric_coordinates_from(&self, point: &Point) -> (r: (i128, i128, i128))
        requires
            self.in_range(),
            point.in_range(),
        ensures
            r.0 == bary_s(self.vertices[0], self.vertices[1], self.vertices[2], *point),
            r.1 == bary_t(self.vertices[0], self.vertices[1], self.vertices[2], *point),
            r.2 == bary_den(self.vertices[0], self.vertices[1], self.vertices[2]),
            -0x2000_0000_0000_0000 <= r.0 <= 0x2000_0000_0000_0000,
            -0x2000_0000_0000_0000 <= r.1 <= 0x2000_0000_0000_0000,
            -0x2000_0000_0000_0000 <= r.2 <= 0x2000_0000_0000_0000,
    {
        let a = self.vertices[0];
        let b = self.vertices[1];
        let c = self.vertices[2];
        assert(a.in_range() && b.in_range() && c.in_range());
        let (ax, ay) = (a.x as i128, a.y as i128);
        let (bx, by) = (b.x as i128, b.y as i128);
        let (cx, cy) = (c.x as i128, c.y as i128);
        let (px, py) = (point.x as i128, point.y as i128);
        proof {
            let l = 0x4000_0000int;
            lemma_mul_bound(by - cy, px - cx, l, l);
            lemma_mul_bound(cx - bx, py - cy, l, l);
            lemma_mul_bound(cy - ay, px - cx, l, l);
            lemma_mul_bound(ax - cx, py - cy, l, l);
            lemma_mul_bound(by - cy, ax - cx, l, l);
            lemma_mul_bound(cx - bx, ay - cy, l, l);
        }
        let s = (by - cy) * (px - cx) + (cx - bx) * (py - cy);
        let t = (cy - ay) * (px - cx) + (ax - cx) * (py - cy);
        let d = (by - cy) * (ax - cx) + (cx - bx) * (ay - cy);
        (s, t, d)
    }

    /// Whether `point` is strictly inside the circumcircle; the vertices
    /// are taken to turn counter-clockwise.
    pub fn is_point_in_circumucircle(&self, point: &Point) -> (r: bool)
        requires
            self.in_range(),
            point.in_range(),
        ensures
            r == self.circle_contains(*point),
    {
        let p = *point;
        let a = self.vertices[0];
        let b = self.vertices[1];
        let c = self.vertices[2];
        assert(a.in_range() && b.in_range() && c.in_range());
        let (pax, pay) = (a.x as i128 - p.x as i128, a.y as i128 - p.y as i128);
        let (pbx, pby) = (b.x as i128 - p.x as i128, b.y as i128 - p.y as i128);
        let (pcx, pcy) = (c.x as i128 - p.x as i128, c.y as i128 - p.y as i128);
        proof {
            let l = 0x4000_0000int;
            lemma_mul_bound(pax as int, pax as int, l, l);
            lemma_mul_bound(pay as int, pay as int, l, l);
            lemma_mul_bound(pbx as int, pbx as int, l, l);
            lemma_mul_bound(pby as int, pby as int, l, l);
            lemma_mul_bound(pcx as int, pcx as int, l, l);
            lemma_mul_bound(pcy as int, pcy as int, l, l);
            lemma_mul_bound(pbx as int, pcy as int, l, l);
            lemma_mul_bound(pcx as int, pby as int, l, l);
            lemma_mul_bound(pax as int, pcy as int, l, l);
            lemma_mul_bound(pcx as int, pay as int, l, l);
            lemma_mul_bound(pax as int, pby as int, l, l);
            lemma_mul_bound(pbx as int, pay as int, l, l);
        }
        let na = pax * pax + pay * pay;
        let nb = pbx * pbx + pby * pby;
        let nc = pcx * pcx + pcy * pcy;
        let xbc = pbx * pcy - pcx * pby;
        let xac = pax * pcy - pcx * pay;
        let xab = pax * pby - pbx * pay;
        proof {
            let m = 0x2000_0000_0000_0000int;
            lemma_mul_bound(na as int, xbc as int, m, m);
            lemma_mul_bound(nb as int, xac as int, m, m);
            lemma_mul_bound(nc as int, xab as int, m, m);
        }
        let det = na * xbc - nb * xac + nc * xab;
        det > 0
    }

    /// The position of `point` among the vertices, if it is one of them
    /// (the first match).
    pub fn find_point_in_triangle_vertices(&self, point: &Point) -> (r: Option<usize>)
        ensures
            match r {
                Some(i) => i < 3 && self.vertices[i as int] == *point && forall|j: int|
                    0 <= j < i ==> self.vertices[j] != *point,
                None => !self.has_vertex(*point),
            },
    {
        let mut i: usize = 0;
        while i < 3
            invariant
                0 <= i <= 3,
                forall|j: int| 0 <= j < i ==> self.vertices[j] != *point,
            decreases 3 - i,
        {
            if self.vertices[i] == *point {
                return Some(i);
            }
            i += 1;
        }
        None
    }

    /// What lies across the edge opposite the vertex at `point_local_id`.
    pub fn find_face_opposite_to(&self, point_local_id: usize) -> (r: Option<Neighbor>)
        requires
            point_local_id < 3,
        ensures
            r == self.adjacencies[(point_local_id + 1) % 3],
    {
        self.adjacencies[(point_local_id + 1) % 3]
    }

    /// The position of the vertex opposite the edge shared with the triangle
    /// at `adjacent_triangle_id`, if some slot names it (the first such).
    pub fn find_point_local_id_opposite_to(&self, adjacent_triangle_id: usize) -> (r: Option<
        usize,
    >)
        ensures
            match r {
                Some(v) => exists|k: int|
                    0 <= k < 3 && self.slot(k) == adjacent_triangle_id && v == (k + 2) % 3 && forall|
                        j: int,
                    |
                        0 <= j < k ==> self.slot(j) != adjacent_triangle_id,
                None => forall|k: int| 0 <= k < 3 ==> self.slot(k) != adjacent_triangle_id,
            },
    {
        let mut i: usize = 0;
        while i < 3
            invariant
                0 <= i <= 3,
                forall|j: int| 0 <= j < i ==> self.slot(j) != adjacent_triangle_id,
            decreases 3 - i,
        {
            if names_cell(self.adjacencies[i], adjacent_triangle_id) {
                assert(0 <= i < 3 && self.slot(i as int) == adjacent_triangle_id && forall|j: int|
                    0 <= j < i ==> self.slot(j) != adjacent_triangle_id);
                return Some((i + 2) % 3);
            }
            i += 1;
        }
        None
    }

    /// `point` lies strictly on the far side of edge `i`, the side away
    /// from the opposite vertex.
    pub open spec fn beyond_edge(self, i: int, p: Point) -> bool {
        let a = self.vertices[i];
        let b = self.vertices[(i + 1) % 3];
        let o = orient(self.vertices[0], self.vertices[1], self.vertices[2]);
        let e = orient(a, b, p);
        (o > 0 && e < 0) || (o < 0 && e > 0)
    }

    /// Edge `i` leads towards `p`: it has a triangle behind it and `p` lies
    /// beyond it.
    pub open spec fn leads_to(self, i: int, p: Point) -> bool {
        self.slot(i) >= 0 && self.beyond_edge(i, p)
    }

    /// The first edge through which a walk towards `point` can leave this
    /// triangle: one with a neighbouring triangle behind it, with `point`
    /// strictly on its far side.
    pub fn find_face_to_point(&self, point: &Point) -> (r: Result<usize, MeshError>)
        requires
            self.in_range(),
            point.in_range(),
        ensures
            match r {
                Ok(i) => i < 3 && self.leads_to(i as int, *point) && forall|j: int|
                    0 <= j < i ==> !self.leads_to(j, *point),
                Err(e) => e == MeshError::PointNotLocated && forall|j: int|
                    0 <= j < 3 ==> !self.leads_to(j, *point),
            },
    {
        assert(self.vertices[0].in_range() && self.vertices[1].in_range()
            && self.vertices[2].in_range());
        let o = orientation(&self.vertices[0], &self.vertices[1], &self.vertices[2]);
        let mut i: usize = 0;
        while i < 3
            invariant
                0 <= i <= 3,
                self.in_range(),
                point.in_range(),
                o == orient(self.vertices[0], self.vertices[1], self.vertices[2]),
                forall|j: int| 0 <= j < i ==> !self.leads_to(j, *point),
            decreases 3 - i,
        {
            assert(self.vertices[i as int].in_range());
            assert(self.vertices[((i + 1) % 3) as int].in_range());
            let e = orientation(&self.vertices[i], &self.vertices[(i + 1) % 3], point);
            let has_cell = match self.adjacencies[i] {
                Some(Neighbor::Cell(_)) => true,
                _ => false,
            };
            if has_cell && ((o > 0 && e < 0) || (o < 0 && e > 0)) {
                return Ok(i);
            }
            i += 1;
        }
        Err(MeshError::PointNotLocated)
    }

    /// Replaces the neighbour in slot `k`.
    pub fn set_adjacency(&mut self, k: usize, n: Option<Neighbor>)
        requires
            k < 3,
        ensures
            final(self).vertices == old(self).vertices,
            final(self).adjacencies@ == old(self).adjacencies@.update(k as int, n),
    {
        let a = self.adjacencies;
        if k == 0 {
            self.adjacencies = [n, a[1], a[2]];
        } else if k == 1 {
            self.adjacencies = [a[0], n, a[2]];
        } else {
            self.adjacencies = [a[0], a[1], n];
        }
        assert(self.adjacencies@ =~= a@.update(k as int, n));
    }
}

/// Whether the slot `n` names the triangle at index `j`.
pub fn names_cell(n: Option<Neighbor>, j: usize) -> (r: bool)
    ensures
        r == (cell_of(n) == j),
{
    match n {
        Some(Neighbor::Cell(i)) => i == j,
        _ => false,
    }
}

/// Twice the signed area of `a, b, c`, exactly.
pub fn orientation(a: &Point, b: &Point, c: &Point) -> (r: i128)
    requires
        a.in_range(),
        b.in_range(),
        c.in_range(),
    ensures
        r == orient(*a, *b, *c),
{
    proof {
        let l = 0x4000_0000int;
        lemma_mul_bound(b.x - a.x, c.y - a.y, l, l);
        lemma_mul_bound(b.y - a.y, c.x - a.x, l, l);
    }
    (b.x as i128 - a.x as i128) * (c.y as i128 - a.y as i128) - (b.y as i128 - a.y as i128) * (
    c.x as i128 - a.x as i128)
}

impl Cell for Triangle {
    open spec fn well_ranged(&self) -> bool {
        self.in_range()
    }

    open spec fn contains(&self, p: Point) -> bool {
        included(self.vertices[0], self.vertices[1], self.vertices[2], p)
    }

    open spec fn double_area(&self) -> int {
        orient(self.vertices[0], self.vertices[1], self.vertices[2])
    }

    fn includes(&self, point: &Point) -> (r: bool) {
        let (s, t, d) = self.barycentric_coordinates_from(point);
        (d > 0 && s >= 0 && t >= 0 && d - s - t >= 0) || (d < 0 && s <= 0 && t <= 0 && d - s - t
            <= 0)
    }

    fn signed_area(&self) -> (r: i128) {
        assert(self.vertices[0].in_range() && self.vertices[1].in_range()
            && self.vertices[2].in_range());
        orientation(&self.vertices[0], &self.vertices[1], &self.vertices[2])
    }
}

/// Creates a triangle.
pub fn build_triangle(vertices: [Point; 3], adjacencies: [Option<Neighbor>; 3]) -> (r: Triangle)
    ensures
        r.vertices == vertices,
        r.adjacencies == adjacencies,
{
    Triangle { vertices, adjacencies }
}

} // verus!
