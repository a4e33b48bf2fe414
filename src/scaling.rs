//! Mapping a point cloud of any extent onto the grid the mesh works on, and
//! back.
use vstd::prelude::*;

use vstd::arithmetic::div_mod::{lemma_fundamental_div_mod, lemma_mod_pos_bound};

use crate::error::MeshError;
use crate::point::Point;
use crate::triangle::Triangle;

verus! {

/// Grid steps per unit of the rescaled cloud: rescaled coordinates lie in
/// `[0, GRID_UNIT]`.
pub const GRID_UNIT: i64 = 1048576;

/// `lo` and `hi` are the lower-left and upper-right corners of the
/// bounding box of the non-empty `pts`.
pub open spec fn bounding_box(pts: Seq<Point>, lo: Point, hi: Point) -> bool {
    &&& forall|i: int|
        0 <= i < pts.len() ==> lo.x <= #[trigger] pts[i].x <= hi.x && lo.y <= pts[i].y <= hi.y
    &&& exists|i: int| 0 <= i < pts.len() && #[trigger] pts[i].x == lo.x
    &&& exists|i: int| 0 <= i < pts.len() && #[trigger] pts[i].x == hi.x
    &&& exists|i: int| 0 <= i < pts.len() && #[trigger] pts[i].y == lo.y
    &&& exists|i: int| 0 <= i < pts.len() && #[trigger] pts[i].y == hi.y
}

/// The common scale factor of a bounding box: its larger side, or 1 for a
/// box of a single point.
pub open spec fn scale_of(lo: Point, hi: Point) -> int {
    let w = hi.x - lo.x;
    let h = hi.y - lo.y;
    let s = if w > h {
        w
    } else {
        h
    };
    if s > 0 {
        s
    } else {
        1
    }
}

/// A coordinate `v` of the box starting at `lo` with scale `s`, on the grid.
pub open spec fn rescaled(v: int, lo: int, s: int) -> int {
    (v - lo) * (GRID_UNIT as int) / s
}

/// A grid coordinate `q` mapped back into the box starting at `lo` with
/// scale `s`.
pub open spec fn scaled_back(q: int, lo: int, s: int) -> int {
    q * s / (GRID_UNIT as int) + lo
}

/// A coordinate within `s` of `lo` lands on the grid between 0 and
/// `GRID_UNIT`.
proof fn lemma_rescaled_range(v: int, lo: int, s: int)
    requires
        lo <= v <= lo + s,
        s >= 1,
    ensures
        0 <= rescaled(v, lo, s) <= GRID_UNIT,
{
    let a = (v - lo) * GRID_UNIT;
    assert(0 <= a <= s * GRID_UNIT) by (nonlinear_arith)
        requires
            a == (v - lo) * GRID_UNIT,
            0 <= v - lo <= s,
    ;
    lemma_fundamental_div_mod(a, s);
    lemma_mod_pos_bound(a, s);
    let q = a / s;
    assert(0 <= q <= GRID_UNIT) by (nonlinear_arith)
        requires
            a == s * q + a % s,
            0 <= a % s < s,
            0 <= a <= s * GRID_UNIT,
            s >= 1,
    ;
}

/// Rescaling a coordinate and scaling it back returns at most one grid
/// step, plus one, below where it started, and never above: with
/// `b = scaled_back(rescaled(v, lo, s), lo, s)`, `b <= v` and
/// `(v - b) * GRID_UNIT < s + GRID_UNIT`.
pub proof fn lemma_scale_round_trip(v: int, lo: int, s: int)
    requires
        lo <= v <= lo + s,
        s >= 1,
    ensures
        scaled_back(rescaled(v, lo, s), lo, s) <= v,
        (v - scaled_back(rescaled(v, lo, s), lo, s)) * GRID_UNIT < s + GRID_UNIT,
{
    let u = GRID_UNIT as int;
    let a = (v - lo) * u;
    lemma_fundamental_div_mod(a, s);
    lemma_mod_pos_bound(a, s);
    let q = a / s;
    assert(q >= 0) by (nonlinear_arith)
        requires
            a == s * q + a % s,
            0 <= a % s < s,
            a >= 0 || v - lo >= 0,
            a == (v - lo) * u,
            u > 0,
            s >= 1,
    ;
    let qs = q * s;
    assert(qs >= 0) by (nonlinear_arith)
        requires
            qs == q * s,
            q >= 0,
            s >= 1,
    ;
    lemma_fundamental_div_mod(qs, u);
    lemma_mod_pos_bound(qs, u);
    let b = qs / u;
    assert(b <= v - lo && (v - lo - b) * u < s + u) by (nonlinear_arith)
        requires
            a == (v - lo) * u,
            a == s * q + a % s,
            0 <= a % s < s,
            qs == q * s,
            qs == u * b + qs % u,
            0 <= qs % u < u,
            u > 0,
    ;
}

/// Rescaling a point of the box `lo`, `hi` and scaling it back returns,
/// in each coordinate, at most one grid step plus one below the point.
pub proof fn lemma_point_round_trip(p: Point, lo: Point, hi: Point)
    requires
        lo.x <= p.x <= hi.x,
        lo.y <= p.y <= hi.y,
    ensures
        ({
            let s = scale_of(lo, hi);
            let bx = scaled_back(rescaled(p.x as int, lo.x as int, s), lo.x as int, s);
            let by = scaled_back(rescaled(p.y as int, lo.y as int, s), lo.y as int, s);
            &&& bx <= p.x && (p.x - bx) * GRID_UNIT < s + GRID_UNIT
            &&& by <= p.y && (p.y - by) * GRID_UNIT < s + GRID_UNIT
        }),
{
    let s = scale_of(lo, hi);
    lemma_scale_round_trip(p.x as int, lo.x as int, s);
    lemma_scale_round_trip(p.y as int, lo.y as int, s);
}

/// The scale factor of the box `lo`, `hi`, exactly.
fn scale_factor(lo: &Point, hi: &Point) -> (r: i128)
    requires
        lo.x <= hi.x,
        lo.y <= hi.y,
    ensures
        r == scale_of(*lo, *hi),
{
    let w = hi.x as i128 - lo.x as i128;
    let h = hi.y as i128 - lo.y as i128;
    let s = if w > h {
        w
    } else {
        h
    };
    if s > 0 {
        s
    } else {
        1
    }
}

/// Rescales the cloud onto `[0, GRID_UNIT]` in both axes, with one factor
/// for both: the larger side of its bounding box. Returns the corners of
/// the bounding box, `(min, max)`, for scaling back. A cloud of equal
/// points has no extent to scale by: it fails with `DegenerateGeometry`
/// and is left as it is.
pub fn rescale_vertices(vertices: &mut Vec<Point>) -> (r: Result<(Point, Point), MeshError>)
    requires
        old(vertices).len() > 0,
    ensures
        final(vertices).len() == old(vertices).len(),
        match r {
            Ok((lo, hi)) => {
                &&& bounding_box(old(vertices)@, lo, hi)
                &&& (hi.x > lo.x || hi.y > lo.y)
                &&& forall|i: int|
                    0 <= i < old(vertices).len() ==> (#[trigger] final(vertices)@[i]).x == rescaled(
                        old(vertices)@[i].x as int,
                        lo.x as int,
                        scale_of(lo, hi),
                    ) && final(vertices)@[i].y == rescaled(
                        old(vertices)@[i].y as int,
                        lo.y as int,
                        scale_of(lo, hi),
                    )
                &&& forall|i: int|
                    0 <= i < old(vertices).len() ==> 0 <= (#[trigger] final(vertices)@[i]).x <= GRID_UNIT
                        && 0 <= final(vertices)@[i].y <= GRID_UNIT
            },
            Err(e) => {
                &&& e == MeshError::DegenerateGeometry
                &&& final(vertices)@ == old(vertices)@
                &&& forall|i: int| 0 <= i < old(vertices).len() ==> #[trigger] old(vertices)@[i] == old(vertices)@[0]
            },
        },
        (r is Err) == (forall|i: int| 0 <= i < old(vertices).len() ==> #[trigger] old(vertices)@[i] == old(vertices)@[0]),
{
    let ghost pts = vertices@;
    let n = vertices.len();
    let mut lo = vertices[0];
    let mut hi = vertices[0];
    let mut i: usize = 1;
    while i < n
        invariant
            1 <= i <= n,
            n == vertices.len(),
            vertices@ == pts,
            forall|j: int|
                0 <= j < i ==> lo.x <= #[trigger] pts[j].x <= hi.x && lo.y <= pts[j].y <= hi.y,
            exists|j: int| 0 <= j < i && #[trigger] pts[j].x == lo.x,
            exists|j: int| 0 <= j < i && #[trigger] pts[j].x == hi.x,
            exists|j: int| 0 <= j < i && #[trigger] pts[j].y == lo.y,
            exists|j: int| 0 <= j < i && #[trigger] pts[j].y == hi.y,
        decreases n - i,
    {
        let v = vertices[i];
        if v.x < lo.x {
            lo = Point { x: v.x, y: lo.y };
        }
        if v.x > hi.x {
            hi = Point { x: v.x, y: hi.y };
        }
        if v.y < lo.y {
            lo = Point { x: lo.x, y: v.y };
        }
        if v.y > hi.y {
            hi = Point { x: hi.x, y: v.y };
        }
        assert(pts[i as int] == v);
        i += 1;
    }
    if lo.x == hi.x && lo.y == hi.y {
        proof {
            assert forall|i: int| 0 <= i < n implies #[trigger] pts[i] == pts[0] by {
                assert(lo.x <= pts[i].x <= hi.x && lo.y <= pts[i].y <= hi.y);
                assert(lo.x <= pts[0].x <= hi.x && lo.y <= pts[0].y <= hi.y);
            }
        }
        return Err(MeshError::DegenerateGeometry);
    }
    proof {
        if forall|i: int| 0 <= i < n ==> #[trigger] pts[i] == pts[0] {
            let a = choose|a: int| 0 <= a < n && #[trigger] pts[a].x == lo.x;
            let b = choose|b: int| 0 <= b < n && #[trigger] pts[b].x == hi.x;
            let c = choose|c: int| 0 <= c < n && #[trigger] pts[c].y == lo.y;
            let d = choose|d: int| 0 <= d < n && #[trigger] pts[d].y == hi.y;
            assert(pts[a] == pts[0] && pts[b] == pts[0] && pts[c] == pts[0] && pts[d] == pts[0]);
        }
    }
    let s = scale_factor(&lo, &hi);
    let u = GRID_UNIT as i128;
    let mut k: usize = 0;
    while k < n
        invariant
            0 <= k <= n,
            n == vertices.len(),
            n == pts.len(),
            bounding_box(pts, lo, hi),
            s == scale_of(lo, hi),
            u == GRID_UNIT,
            forall|j: int| k <= j < n ==> #[trigger] vertices@[j] == pts[j],
            forall|j: int|
                0 <= j < k ==> (#[trigger] vertices@[j]).x == rescaled(pts[j].x as int, lo.x as int, s as int)
                    && vertices@[j].y == rescaled(pts[j].y as int, lo.y as int, s as int),
            forall|j: int|
                0 <= j < k ==> 0 <= (#[trigger] vertices@[j]).x <= GRID_UNIT && 0 <= vertices@[j].y
                    <= GRID_UNIT,
        decreases n - k,
    {
        let v = vertices[k];
        assert(v == pts[k as int]);
        proof {
            lemma_rescaled_range(v.x as int, lo.x as int, s as int);
            lemma_rescaled_range(v.y as int, lo.y as int, s as int);
            assert(0 <= (v.x - lo.x) * GRID_UNIT <= 0x1_0000_0000_0000_0000_0000_0000) by (nonlinear_arith)
                requires
                    0 <= v.x - lo.x <= 0x1_0000_0000_0000_0000,
            ;
            assert(0 <= (v.y - lo.y) * GRID_UNIT <= 0x1_0000_0000_0000_0000_0000_0000) by (nonlinear_arith)
                requires
                    0 <= v.y - lo.y <= 0x1_0000_0000_0000_0000,
            ;
        }
        let x = ((v.x as i128 - lo.x as i128) * u) / s;
        let y = ((v.y as i128 - lo.y as i128) * u) / s;
        vertices.set(k, Point { x: x as i64, y: y as i64 });
        k += 1;
    }
    Ok((lo, hi))
}

/// `p` lies on the grid square `[0, GRID_UNIT]²`.
pub open spec fn on_grid(p: Point) -> bool {
    0 <= p.x <= GRID_UNIT && 0 <= p.y <= GRID_UNIT
}

/// `q` is `p` scaled back into the box starting at `lo` with scale `s`.
pub open spec fn is_scaled_back(q: Point, p: Point, lo: Point, s: int) -> bool {
    q.x == scaled_back(p.x as int, lo.x as int, s) && q.y == scaled_back(p.y as int, lo.y as int, s)
}

/// The box `lo`, `hi` is ordered, and a grid point scaled back into it
/// fits in 64 bits.
pub open spec fn box_fits(lo: Point, hi: Point) -> bool {
    &&& lo.x <= hi.x && lo.y <= hi.y
    &&& lo.x + scale_of(lo, hi) <= i64::MAX
    &&& lo.y + scale_of(lo, hi) <= i64::MAX
}

/// A grid point scaled back into the box starting at `lo` with scale `s`.
fn back_point(p: &Point, lo: &Point, s: i128) -> (r: Point)
    requires
        on_grid(*p),
        1 <= s,
        lo.x + s <= i64::MAX,
        lo.y + s <= i64::MAX,
    ensures
        is_scaled_back(r, *p, *lo, s as int),
{
    let u = GRID_UNIT as i128;
    proof {
        lemma_back_range(p.x as int, s as int);
        lemma_back_range(p.y as int, s as int);
    }
    let x = (p.x as i128) * s / u + lo.x as i128;
    let y = (p.y as i128) * s / u + lo.y as i128;
    Point { x: x as i64, y: y as i64 }
}

/// A grid coordinate scaled by `s` stays within `s`.
proof fn lemma_back_range(q: int, s: int)
    requires
        0 <= q <= GRID_UNIT,
        1 <= s <= 0x1_0000_0000_0000_0000,
    ensures
        0 <= q * s <= 0x10_0000_0000_0000_0000_0000,
        0 <= q * s / (GRID_UNIT as int) <= s,
{
    let u = GRID_UNIT as int;
    assert(0 <= q * s <= u * s) by (nonlinear_arith)
        requires
            0 <= q <= u,
            1 <= s,
    ;
    assert(u * s <= 0x10_0000_0000_0000_0000_0000) by (nonlinear_arith)
        requires
            u == 0x10_0000,
            s <= 0x1_0000_0000_0000_0000,
    ;
    let a = q * s;
    lemma_fundamental_div_mod(a, u);
    lemma_mod_pos_bound(a, u);
    assert(0 <= a / u <= s) by (nonlinear_arith)
        requires
            a == u * (a / u) + a % u,
            0 <= a % u < u,
            0 <= a <= u * s,
            u > 0,
    ;
}

/// Scales the cloud and the vertices of the mesh back from the grid into
/// the bounding box `bounds` that `rescale_vertices` returned.
pub fn scale_back(vertices: &mut Vec<Point>, triangles: &mut Vec<Triangle>, bounds: (&Point, &Point))
    requires
        box_fits(*bounds.0, *bounds.1),
        forall|i: int| 0 <= i < old(vertices).len() ==> on_grid(#[trigger] old(vertices)@[i]),
        forall|i: int, k: int|
            0 <= i < old(triangles).len() && 0 <= k < 3 ==> on_grid(#[trigger] old(triangles)@[i].vertices[k]),
    ensures
        final(vertices).len() == old(vertices).len(),
        forall|i: int|
            0 <= i < old(vertices).len() ==> is_scaled_back(
                #[trigger] final(vertices)@[i],
                old(vertices)@[i],
                *bounds.0,
                scale_of(*bounds.0, *bounds.1),
            ),
        final(triangles).len() == old(triangles).len(),
        forall|i: int, k: int|
            0 <= i < old(triangles).len() && 0 <= k < 3 ==> is_scaled_back(
                #[trigger] final(triangles)@[i].vertices[k],
                old(triangles)@[i].vertices[k],
                *bounds.0,
                scale_of(*bounds.0, *bounds.1),
            ),
        forall|i: int|
            0 <= i < old(triangles).len() ==> (#[trigger] final(triangles)@[i]).adjacencies == old(
                triangles,
            )@[i].adjacencies,
{
    let (lo, hi) = bounds;
    let s = scale_factor(lo, hi);
    let ghost pts = vertices@;
    let ghost tris = triangles@;
    let mut i: usize = 0;
    while i < vertices.len()
        invariant
            0 <= i <= vertices.len(),
            vertices.len() == pts.len(),
            s == scale_of(*lo, *hi),
            box_fits(*lo, *hi),
            forall|j: int| 0 <= j < pts.len() ==> on_grid(#[trigger] pts[j]),
            forall|j: int| i <= j < pts.len() ==> #[trigger] vertices@[j] == pts[j],
            forall|j: int| 0 <= j < i ==> is_scaled_back(#[trigger] vertices@[j], pts[j], *lo, s as int),
        decreases pts.len() - i,
    {
        let p = vertices[i];
        assert(p == pts[i as int]);
        let q = back_point(&p, lo, s);
        vertices.set(i, q);
        i += 1;
    }
    let mut t: usize = 0;
    while t < triangles.len()
        invariant
            0 <= t <= triangles.len(),
            triangles.len() == tris.len(),
            s == scale_of(*lo, *hi),
            box_fits(*lo, *hi),
            forall|j: int, k: int| 0 <= j < tris.len() && 0 <= k < 3 ==> on_grid(#[trigger] tris[j].vertices[k]),
            forall|j: int| t <= j < tris.len() ==> #[trigger] triangles@[j] == tris[j],
            forall|j: int, k: int|
                0 <= j < t && 0 <= k < 3 ==> is_scaled_back(#[trigger] triangles@[j].vertices[k], tris[j].vertices[k], *lo, s as int),
            forall|j: int| 0 <= j < t ==> (#[trigger] triangles@[j]).adjacencies == tris[j].adjacencies,
        decreases tris.len() - t,
    {
        let old_t = triangles[t];
        assert(old_t == tris[t as int]);
        assert(on_grid(old_t.vertices[0]) && on_grid(old_t.vertices[1]) && on_grid(old_t.vertices[2]));
        let a = back_point(&old_t.vertices[0], lo, s);
        let b = back_point(&old_t.vertices[1], lo, s);
        let c = back_point(&old_t.vertices[2], lo, s);
        let new_t = Triangle { vertices: [a, b, c], adjacencies: old_t.adjacencies };
        assert forall|k: int| 0 <= k < 3 implies is_scaled_back(#[trigger] new_t.vertices[k], old_t.vertices[k], *lo, s as int) by {
            assert(k == 0 || k == 1 || k == 2);
        }
        triangles.set(t, new_t);
        t += 1;
    }
}

/// Whether `p` lies on the grid square `[0, GRID_UNIT]²`.
pub fn is_on_grid(p: &Point) -> (r: bool)
    ensures
        r == on_grid(*p),
{
    0 <= p.x && p.x <= GRID_UNIT && 0 <= p.y && p.y <= GRID_UNIT
}

/// Whether grid points scaled back into the box `lo`, `hi` fit in 64 bits.
pub fn fits_box(lo: &Point, hi: &Point) -> (r: bool)
    ensures
        r == box_fits(*lo, *hi),
{
    if lo.x > hi.x || lo.y > hi.y {
        return false;
    }
    let s = scale_factor(lo, hi);
    lo.x as i128 + s <= i64::MAX as i128 && lo.y as i128 + s <= i64::MAX as i128
}

/// Whether `scale_back` may be called on these points, triangles and box:
/// the box fits and every point and vertex lies on the grid.
pub fn can_scale_back(vertices: &Vec<Point>, triangles: &Vec<Triangle>, bounds: (&Point, &Point)) -> (r: bool)
    ensures
        r == (box_fits(*bounds.0, *bounds.1) && (forall|i: int| 0 <= i < vertices.len() ==> on_grid(#[trigger] vertices@[i]))
            && (forall|i: int, k: int|
            0 <= i < triangles.len() && 0 <= k < 3 ==> on_grid(#[trigger] triangles@[i].vertices[k]))),
{
    if !fits_box(bounds.0, bounds.1) {
        return false;
    }
    let mut i: usize = 0;
    while i < vertices.len()
        invariant
            0 <= i <= vertices.len(),
            forall|j: int| 0 <= j < i ==> on_grid(#[trigger] vertices@[j]),
        decreases vertices.len() - i,
    {
        if !is_on_grid(&vertices[i]) {
            return false;
        }
        i += 1;
    }
    let mut t: usize = 0;
    while t < triangles.len()
        invariant
            0 <= t <= triangles.len(),
            forall|j: int, k: int| 0 <= j < t && 0 <= k < 3 ==> on_grid(#[trigger] triangles@[j].vertices[k]),
        decreases triangles.len() - t,
    {
        let tr = triangles[t];
        if !is_on_grid(&tr.vertices[0]) || !is_on_grid(&tr.vertices[1]) || !is_on_grid(&tr.vertices[2]) {
            proof {
                assert(triangles@[t as int] == tr);
            }
            return false;
        }
        assert forall|k: int| 0 <= k < 3 implies on_grid(#[trigger] triangles@[t as int].vertices[k]) by {
            assert(k == 0 || k == 1 || k == 2);
        }
        t += 1;
    }
    true
}

} // verus!
