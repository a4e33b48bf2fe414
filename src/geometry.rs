//! Exact geometric predicates over integer points, stated over `int`.
use vstd::prelude::*;

use crate::point::Point;

verus! {

/// Twice the signed area of the triangle `a, b, c`: positive when the three
/// points turn counter-clockwise, zero when they are collinear.
pub open spec fn orient(a: Point, b: Point, c: Point) -> int {
    (b.x - a.x) * (c.y - a.y) - (b.y - a.y) * (c.x - a.x)
}

/// Common denominator of the barycentric coordinates of a point against
/// `a, b, c`.
pub open spec fn bary_den(a: Point, b: Point, c: Point) -> int {
    (b.y - c.y) * (a.x - c.x) + (c.x - b.x) * (a.y - c.y)
}

/// Numerator of the barycentric weight of `a` for the point `p`.
pub open spec fn bary_s(a: Point, b: Point, c: Point, p: Point) -> int {
    (b.y - c.y) * (p.x - c.x) + (c.x - b.x) * (p.y - c.y)
}

/// Numerator of the barycentric weight of `b` for the point `p`.
pub open spec fn bary_t(a: Point, b: Point, c: Point, p: Point) -> int {
    (c.y - a.y) * (p.x - c.x) + (a.x - c.x) * (p.y - c.y)
}

/// `p` lies in the closed triangle `a, b, c`: its three barycentric weights
/// `s`, `t` and `1 - s - t` are all non-negative. A degenerate triangle
/// (zero denominator) contains no point.
pub open spec fn included(a: Point, b: Point, c: Point, p: Point) -> bool {
    let d = bary_den(a, b, c);
    let s = bary_s(a, b, c, p);
    let t = bary_t(a, b, c, p);
    (d > 0 && s >= 0 && t >= 0 && d - s - t >= 0) || (d < 0 && s <= 0 && t <= 0 && d - s - t <= 0)
}

/// Two-dimensional cross product of the displacements `p -> u` and `p -> v`.
pub open spec fn cross_from(p: Point, u: Point, v: Point) -> int {
    (u.x - p.x) * (v.y - p.y) - (v.x - p.x) * (u.y - p.y)
}

/// Squared length of the displacement `p -> u`.
pub open spec fn sq_dist(p: Point, u: Point) -> int {
    (u.x - p.x) * (u.x - p.x) + (u.y - p.y) * (u.y - p.y)
}

/// The in-circumcircle determinant of `p` against the triangle `a, b, c`,
/// computed in the frame of `p`.
pub open spec fn circle_det(a: Point, b: Point, c: Point, p: Point) -> int {
    sq_dist(p, a) * cross_from(p, b, c) - sq_dist(p, b) * cross_from(p, a, c) + sq_dist(p, c)
        * cross_from(p, a, b)
}

/// `p` lies strictly inside the circumcircle of the counter-clockwise
/// triangle `a, b, c`.
pub open spec fn in_circle(a: Point, b: Point, c: Point, p: Point) -> bool {
    circle_det(a, b, c, p) > 0
}

/// A vertex of a triangle is never strictly inside its circumcircle: the
/// determinant vanishes there.
pub proof fn lemma_vertex_not_in_circle(a: Point, b: Point, c: Point, p: Point)
    requires
        p == a || p == b || p == c,
    ensures
        !in_circle(a, b, c, p),
{
    let da = sq_dist(p, a);
    let db = sq_dist(p, b);
    let dc = sq_dist(p, c);
    let xbc = cross_from(p, b, c);
    let xac = cross_from(p, a, c);
    let xab = cross_from(p, a, b);
    if p == a {
        assert(da == 0 && xac == 0 && xab == 0) by (nonlinear_arith)
            requires
                p.x == a.x && p.y == a.y,
                da == sq_dist(p, a),
                xac == cross_from(p, a, c),
                xab == cross_from(p, a, b),
        ;
    } else if p == b {
        assert(db == 0 && xbc == 0 && xab == 0) by (nonlinear_arith)
            requires
                p.x == b.x && p.y == b.y,
                db == sq_dist(p, b),
                xbc == cross_from(p, b, c),
                xab == cross_from(p, a, b),
        ;
    } else {
        assert(dc == 0 && xbc == 0 && xac == 0) by (nonlinear_arith)
            requires
                p.x == c.x && p.y == c.y,
                dc == sq_dist(p, c),
                xbc == cross_from(p, b, c),
                xac == cross_from(p, a, c),
        ;
    }
    assert(da * xbc - db * xac + dc * xab == 0) by (nonlinear_arith)
        requires
            (da == 0 && xac == 0 && xab == 0) || (db == 0 && xbc == 0 && xab == 0) || (dc == 0
                && xbc == 0 && xac == 0),
    ;
}

/// `|a * b| <= m * n` whenever `|a| <= m` and `|b| <= n`.
pub proof fn lemma_mul_bound(a: int, b: int, m: int, n: int)
    requires
        -m <= a <= m,
        -n <= b <= n,
    ensures
        -(m * n) <= a * b <= m * n,
{
    assert(-(m * n) <= a * b <= m * n) by (nonlinear_arith)
        requires
            -m <= a <= m,
            -n <= b <= n,
    ;
}

} // verus!

verus! {

/// `(a * b)^2 == a^2 * b^2`.
proof fn lemma_square_of_product(a: int, b: int)
    ensures
        (a * b) * (a * b) == (a * a) * (b * b),
{
    assert((a * b) * (a * b) == (a * a) * (b * b)) by (nonlinear_arith);
}

/// `(x * a + y * b)^2 == x^2 a^2 + y^2 b^2 + 2 x y a b`.
proof fn lemma_square_of_sum(x: int, a: int, y: int, b: int)
    ensures
        (x * a + y * b) * (x * a + y * b) == x * x * (a * a) + y * y * (b * b) + 2 * (x * y) * (a * b),
{
    let m = x * a;
    let n = y * b;
    assert((m + n) * (m + n) == m * m + 2 * (m * n) + n * n) by (nonlinear_arith);
    assert(m * m == x * x * (a * a)) by (nonlinear_arith)
        requires
            m == x * a,
    ;
    assert(n * n == y * y * (b * b)) by (nonlinear_arith)
        requires
            n == y * b,
    ;
    assert(m * n == (x * y) * (a * b)) by (nonlinear_arith)
        requires
            m == x * a,
            n == y * b,
    ;
    assert(2 * (x * y) * (a * b) == 2 * ((x * y) * (a * b))) by (nonlinear_arith);
}

/// `u + w >= z` when `u, w >= 0` and `(u + w)^2 >= z^2`.
proof fn lemma_sqrt_order(u: int, w: int, z: int)
    requires
        u >= 0,
        w >= 0,
        (u + w) * (u + w) >= z * z,
    ensures
        u + w >= z,
{
    if z > u + w {
        assert(z * z > (u + w) * (u + w)) by (nonlinear_arith)
            requires
                z > u + w,
                u + w >= 0,
        ;
    }
}

/// The heart of the flip lemma: with `K > 0`, `X + Y > K`, `Y <= 0`,
/// `a2 * b2 - c * c == K * K` and `a2, b2 >= 0`, the quantity
/// `a2 * X * (K - X) + b2 * Y * (K - Y) - 2 * X * Y * c` is not positive.
proof fn lemma_flip_core(a2: int, b2: int, c: int, k: int, x: int, y: int)
    requires
        k > 0,
        x + y > k,
        y <= 0,
        a2 >= 0,
        b2 >= 0,
        a2 * b2 - c * c == k * k,
    ensures
        a2 * x * (k - x) + b2 * y * (k - y) - 2 * x * y * c <= 0,
{
    let t = -y;
    assert(x > k);
    let u = a2 * (x * (x - k));
    let w = b2 * (t * (k + t));
    assert(x * (x - k) > 0) by (nonlinear_arith)
        requires
            x > k,
            k > 0,
    ;
    assert(t * (k + t) >= 0) by (nonlinear_arith)
        requires
            t >= 0,
            k > 0,
    ;
    assert(u >= 0) by (nonlinear_arith)
        requires
            u == a2 * (x * (x - k)),
            a2 >= 0,
            x * (x - k) > 0,
    ;
    assert(w >= 0) by (nonlinear_arith)
        requires
            w == b2 * (t * (k + t)),
            b2 >= 0,
            t * (k + t) >= 0,
    ;
    let z = 2 * x * t * c;
    if z > 0 {
        // (u + w)^2 >= 4 u w >= 4 a2 b2 x^2 t^2 >= (2 x t c)^2
        assert((u + w) * (u + w) >= 4 * u * w) by (nonlinear_arith);
        let g = x * (x - k) * (t * (k + t));
        assert(g >= x * x * (t * t)) by (nonlinear_arith)
            requires
                g == x * (x - k) * (t * (k + t)),
                x + (-t) > k,
                k > 0,
                t >= 0,
                x > 0,
        ;
        assert(4 * u * w == 4 * (a2 * b2) * g) by (nonlinear_arith)
            requires
                u == a2 * (x * (x - k)),
                w == b2 * (t * (k + t)),
                g == x * (x - k) * (t * (k + t)),
        ;
        assert(k * k >= 0) by (nonlinear_arith);
        assert(c * c >= 0) by (nonlinear_arith);
        assert(a2 * b2 >= c * c);
        let h = x * x * (t * t);
        assert(h >= 0) by (nonlinear_arith)
            requires
                h == x * x * (t * t),
        ;
        assert(4 * (a2 * b2) * g >= 4 * (c * c) * h) by (nonlinear_arith)
            requires
                a2 * b2 >= c * c,
                c * c >= 0,
                g >= h,
                h >= 0,
        ;
        assert(4 * (c * c) * h == z * z) by (nonlinear_arith)
            requires
                h == x * x * (t * t),
                z == 2 * x * t * c,
        ;
        lemma_sqrt_order(u, w, z);
    }
    assert(a2 * x * (k - x) == -u) by (nonlinear_arith)
        requires
            u == a2 * (x * (x - k)),
    ;
    assert(b2 * y * (k - y) == -w) by (nonlinear_arith)
        requires
            w == b2 * (t * (k + t)),
            t == -y,
    ;
    assert(2 * x * y * c == -z) by (nonlinear_arith)
        requires
            z == 2 * x * t * c,
            t == -y,
    ;
}

/// An edge flip happens inside a convex quadrilateral: if `p, v1, v2` and
/// `v2, v1, d` both turn counter-clockwise and `p` lies strictly inside the
/// circumcircle of `v2, v1, d`, then the two triangles `p, d, v2` and
/// `p, v1, d` that replace them also turn counter-clockwise.
pub proof fn lemma_flip_convex(p: Point, v1: Point, v2: Point, d: Point)
    requires
        orient(p, v1, v2) > 0,
        orient(v2, v1, d) > 0,
        in_circle(v2, v1, d, p),
    ensures
        orient(p, d, v2) > 0,
        orient(p, v1, d) > 0,
{
    let (ax, ay) = (v1.x - p.x, v1.y - p.y);
    let (bx, by) = (v2.x - p.x, v2.y - p.y);
    let (dx, dy) = (d.x - p.x, d.y - p.y);
    let k = ax * by - ay * bx;
    let x = dx * by - dy * bx;
    let y = ax * dy - ay * dx;
    let a2 = ax * ax + ay * ay;
    let b2 = bx * bx + by * by;
    let d2 = dx * dx + dy * dy;
    let c = ax * bx + ay * by;
    assert(orient(p, v1, v2) == k) by (nonlinear_arith)
        requires
            ax == v1.x - p.x, ay == v1.y - p.y, bx == v2.x - p.x, by == v2.y - p.y,
            k == ax * by - ay * bx,
    ;
    assert(orient(p, d, v2) == x) by (nonlinear_arith)
        requires
            dx == d.x - p.x, dy == d.y - p.y, bx == v2.x - p.x, by == v2.y - p.y,
            x == dx * by - dy * bx,
    ;
    assert(orient(p, v1, d) == y) by (nonlinear_arith)
        requires
            ax == v1.x - p.x, ay == v1.y - p.y, dx == d.x - p.x, dy == d.y - p.y,
            y == ax * dy - ay * dx,
    ;
    assert(orient(v2, v1, d) == x + y - k) by (nonlinear_arith)
        requires
            ax == v1.x - p.x, ay == v1.y - p.y, bx == v2.x - p.x, by == v2.y - p.y,
            dx == d.x - p.x, dy == d.y - p.y,
            k == ax * by - ay * bx, x == dx * by - dy * bx, y == ax * dy - ay * dx,
    ;
    let det = circle_det(v2, v1, d, p);
    assert(det == a2 * x + b2 * y - k * d2) by (nonlinear_arith)
        requires
            ax == v1.x - p.x, ay == v1.y - p.y, bx == v2.x - p.x, by == v2.y - p.y,
            dx == d.x - p.x, dy == d.y - p.y,
            k == ax * by - ay * bx, x == dx * by - dy * bx, y == ax * dy - ay * dx,
            a2 == ax * ax + ay * ay, b2 == bx * bx + by * by, d2 == dx * dx + dy * dy,
            det == circle_det(v2, v1, d, p),
    ;
    // k * D == x * A + y * B, coordinate by coordinate
    let kx = k * dx;
    let ky = k * dy;
    assert(kx == x * ax + y * bx) by (nonlinear_arith)
        requires
            kx == k * dx,
            k == ax * by - ay * bx, x == dx * by - dy * bx, y == ax * dy - ay * dx,
    ;
    assert(ky == x * ay + y * by) by (nonlinear_arith)
        requires
            ky == k * dy,
            k == ax * by - ay * bx, x == dx * by - dy * bx, y == ax * dy - ay * dx,
    ;
    assert(k * k * d2 == kx * kx + ky * ky) by (nonlinear_arith)
        requires
            kx == k * dx, ky == k * dy, d2 == dx * dx + dy * dy,
    ;
    lemma_square_of_sum(x, ax, y, bx);
    lemma_square_of_sum(x, ay, y, by);
    assert(x * x * (ax * ax) + x * x * (ay * ay) == x * x * a2) by (nonlinear_arith)
        requires
            a2 == ax * ax + ay * ay,
    ;
    assert(y * y * (bx * bx) + y * y * (by * by) == y * y * b2) by (nonlinear_arith)
        requires
            b2 == bx * bx + by * by,
    ;
    assert(2 * (x * y) * (ax * bx) + 2 * (x * y) * (ay * by) == 2 * x * y * c) by (nonlinear_arith)
        requires
            c == ax * bx + ay * by,
    ;
    // Lagrange's identity
    let p1 = ax * by;
    let p2 = ay * bx;
    let q1 = ax * bx;
    let q2 = ay * by;
    assert(a2 * b2 == (ax * ax) * (bx * bx) + (ax * ax) * (by * by) + (ay * ay) * (bx * bx) + (ay
        * ay) * (by * by)) by (nonlinear_arith)
        requires
            a2 == ax * ax + ay * ay, b2 == bx * bx + by * by,
    ;
    lemma_square_of_product(ax, bx);
    lemma_square_of_product(ax, by);
    lemma_square_of_product(ay, bx);
    lemma_square_of_product(ay, by);
    assert(q1 * q2 == p1 * p2) by (nonlinear_arith)
        requires
            p1 == ax * by, p2 == ay * bx, q1 == ax * bx, q2 == ay * by,
    ;
    assert(c * c == q1 * q1 + 2 * (q1 * q2) + q2 * q2) by (nonlinear_arith)
        requires
            c == q1 + q2,
    ;
    assert(k * k == p1 * p1 - 2 * (p1 * p2) + p2 * p2) by (nonlinear_arith)
        requires
            k == p1 - p2,
    ;
    assert(a2 * b2 - c * c == k * k);
    assert(a2 >= 0 && b2 >= 0) by (nonlinear_arith)
        requires
            a2 == ax * ax + ay * ay, b2 == bx * bx + by * by,
    ;
    // k * det, written through x and y
    let e = a2 * x * (k - x) + b2 * y * (k - y) - 2 * x * y * c;
    assert(k * det == k * (a2 * x) + k * (b2 * y) - k * k * d2) by (nonlinear_arith)
        requires
            det == a2 * x + b2 * y - k * d2,
    ;
    assert(a2 * x * (k - x) == k * (a2 * x) - x * x * a2) by (nonlinear_arith);
    assert(b2 * y * (k - y) == k * (b2 * y) - y * y * b2) by (nonlinear_arith);
    assert(k * det == e);
    assert(k * det > 0) by (nonlinear_arith)
        requires
            k > 0,
            det > 0,
    ;
    if y <= 0 {
        lemma_flip_core(a2, b2, c, k, x, y);
    }
    if x <= 0 {
        lemma_flip_core(b2, a2, c, k, y, x);
        assert(b2 * y * (k - y) + a2 * x * (k - x) - 2 * y * x * c == e) by (nonlinear_arith)
            requires
                e == a2 * x * (k - x) + b2 * y * (k - y) - 2 * x * y * c,
        ;
    }
}

} // verus!

verus! {

/// Rotating the three points keeps the orientation; swapping two negates it.
pub proof fn lemma_orient_symmetries(a: Point, b: Point, c: Point)
    ensures
        orient(a, b, c) == orient(b, c, a),
        orient(a, b, c) == -orient(a, c, b),
{
    assert(orient(a, b, c) == orient(b, c, a)) by (nonlinear_arith);
    assert(orient(a, b, c) == -orient(a, c, b)) by (nonlinear_arith);
}

/// A counter-clockwise triangle has three distinct vertices.
pub proof fn lemma_orient_distinct(a: Point, b: Point, c: Point)
    requires
        orient(a, b, c) > 0,
    ensures
        a != b && b != c && a != c,
{
    if a == b {
        assert(orient(a, b, c) == 0) by (nonlinear_arith)
            requires
                a.x == b.x && a.y == b.y,
        ;
    }
    if b == c {
        assert(orient(a, b, c) == 0) by (nonlinear_arith)
            requires
                b.x == c.x && b.y == c.y,
        ;
    }
    if a == c {
        assert(orient(a, b, c) == 0) by (nonlinear_arith)
            requires
                a.x == c.x && a.y == c.y,
        ;
    }
}

/// Rotating the triangle keeps the in-circumcircle test.
pub proof fn lemma_in_circle_rotate(a: Point, b: Point, c: Point, p: Point)
    ensures
        circle_det(a, b, c, p) == circle_det(b, c, a, p),
{
    let da = sq_dist(p, a);
    let db = sq_dist(p, b);
    let dc = sq_dist(p, c);
    let xbc = cross_from(p, b, c);
    let xac = cross_from(p, a, c);
    let xab = cross_from(p, a, b);
    assert(cross_from(p, c, a) == -xac) by (nonlinear_arith)
        requires
            xac == cross_from(p, a, c),
    ;
    assert(cross_from(p, b, a) == -xab) by (nonlinear_arith)
        requires
            xab == cross_from(p, a, b),
    ;
    assert(da * xbc - db * xac + dc * xab == db * (-xac) - dc * (-xab) + da * xbc) by (nonlinear_arith);
}

/// The barycentric numerators are orientations: `p` in a counter-clockwise
/// triangle and off the lines of its edges is strictly left of each edge.
pub proof fn lemma_strictly_inside(a: Point, b: Point, c: Point, p: Point)
    requires
        orient(a, b, c) > 0,
        included(a, b, c, p),
        orient(a, b, p) != 0,
        orient(b, c, p) != 0,
        orient(c, a, p) != 0,
    ensures
        orient(a, b, p) > 0,
        orient(b, c, p) > 0,
        orient(c, a, p) > 0,
{
    assert(bary_den(a, b, c) == orient(a, b, c)) by (nonlinear_arith);
    assert(bary_s(a, b, c, p) == orient(b, c, p)) by (nonlinear_arith);
    assert(bary_t(a, b, c, p) == orient(c, a, p)) by (nonlinear_arith);
    let (a1, a2) = (a.x - c.x, a.y - c.y);
    let (b1, b2) = (b.x - c.x, b.y - c.y);
    let (p1, p2) = (p.x - c.x, p.y - c.y);
    assert(bary_den(a, b, c) == b2 * a1 - b1 * a2) by (nonlinear_arith)
        requires
            a1 == a.x - c.x, a2 == a.y - c.y, b1 == b.x - c.x, b2 == b.y - c.y,
    ;
    assert(bary_s(a, b, c, p) == b2 * p1 - b1 * p2) by (nonlinear_arith)
        requires
            p1 == p.x - c.x, p2 == p.y - c.y, b1 == b.x - c.x, b2 == b.y - c.y,
    ;
    assert(bary_t(a, b, c, p) == a1 * p2 - a2 * p1) by (nonlinear_arith)
        requires
            a1 == a.x - c.x, a2 == a.y - c.y, p1 == p.x - c.x, p2 == p.y - c.y,
    ;
    assert(orient(a, b, p) == (b1 - a1) * (p2 - a2) - (b2 - a2) * (p1 - a1)) by (nonlinear_arith)
        requires
            a1 == a.x - c.x, a2 == a.y - c.y, b1 == b.x - c.x, b2 == b.y - c.y,
            p1 == p.x - c.x, p2 == p.y - c.y,
    ;
    assert((b1 - a1) * (p2 - a2) - (b2 - a2) * (p1 - a1) == (b2 * a1 - b1 * a2) - (b2 * p1 - b1 * p2)
        - (a1 * p2 - a2 * p1)) by (nonlinear_arith);
}

} // verus!
