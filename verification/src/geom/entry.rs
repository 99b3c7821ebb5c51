//! When a line passes through the inside of a convex polygon.

use super::clearance;
use super::interior;
use super::polygon;
use super::seg;
use super::shape;
use super::shape::ShapeV;
use crate::coord::Point;
use vstd::prelude::*;

verus! {

/// The point is strictly inside a convex ring: off every edge, on the side where the ring
/// lies.
pub open spec fn strictly_inside(r: Seq<Point>, p: Point) -> bool {
    ||| interior::turns_left(r) && forall|i: int|
        0 <= i < r.len() ==> seg::cross(#[trigger] r[i], interior::tip(r, i), p) > 0
    ||| interior::turns_right(r) && forall|i: int|
        0 <= i < r.len() ==> seg::cross(#[trigger] r[i], interior::tip(r, i), p) < 0
}

/// Each fraction `g/h` is larger than the next, around a ring.
spec fn falls_around(g: Seq<int>, h: Seq<int>) -> bool {
    forall|i: int|
        0 <= i < g.len() ==> #[trigger] g[i] * h[polygon::next(i, g.len() as int)] > h[i]
            * g[polygon::next(i, g.len() as int)]
}

proof fn first_is_largest(g: Seq<int>, h: Seq<int>, k: int)
    requires
        g.len() == h.len(),
        falls_around(g, h),
        forall|i: int| 0 <= i < h.len() ==> #[trigger] h[i] > 0,
        1 <= k < g.len(),
    ensures
        g[0] * h[k] > h[0] * g[k],
    decreases k,
{
    let j = k - 1;
    assert(polygon::next(j, g.len() as int) == k);
    assert(g[j] * h[k] > h[j] * g[k]);
    if j > 0 {
        first_is_largest(g, h, j);
        let (a, b, c, d, e, f) = (g[0], h[0], g[j], h[j], g[k], h[k]);
        assert(d > 0 && f > 0 && b > 0);
        assert((a * d) * f > (b * c) * f) by (nonlinear_arith)
            requires
                a * d > b * c,
                f > 0,
        ;
        assert(b * (c * f) > b * (d * e)) by (nonlinear_arith)
            requires
                c * f > d * e,
                b > 0,
        ;
        assert((a * d) * f == d * (a * f)) by (nonlinear_arith);
        assert((b * c) * f == b * (c * f)) by (nonlinear_arith);
        assert(b * (d * e) == d * (b * e)) by (nonlinear_arith);
        assert(a * f > b * e) by (nonlinear_arith)
            requires
                d * (a * f) > d * (b * e),
                d > 0,
        ;
    }
}

/// No fraction is negative below.
spec fn none_negative(h: Seq<int>) -> bool {
    forall|i: int| 0 <= i < h.len() ==> #[trigger] h[i] >= 0
}

proof fn none_is_zero(g: Seq<int>, h: Seq<int>, j: int)
    requires
        g.len() == h.len(),
        g.len() >= 2,
        falls_around(g, h),
        none_negative(h),
        0 <= j < h.len(),
    ensures
        h[j] > 0,
{
    let n = g.len() as int;
    let k = polygon::next(j, n);
    let i = if j == 0 {
        n - 1
    } else {
        j - 1
    };
    assert(polygon::next(i, n) == j);
    assert(g[j] * h[k] > h[j] * g[k]);
    assert(g[i] * h[j] > h[i] * g[j]);
    assert(h[k] >= 0 && h[i] >= 0 && h[j] >= 0);
    let (x, y, z, w) = (g[j], h[k], h[i], h[j]);
    let (p, q) = (g[k], g[i]);
    if w == 0 {
        assert(w * p == 0 && q * w == 0) by (nonlinear_arith)
            requires
                w == 0,
        ;
        assert(x > 0) by (nonlinear_arith)
            requires
                x * y > 0,
                y >= 0,
        ;
        assert(z * x >= 0) by (nonlinear_arith)
            requires
                z >= 0,
                x > 0,
        ;
    }
}

proof fn nothing_falls_around(g: Seq<int>, h: Seq<int>)
    requires
        g.len() == h.len(),
        g.len() >= 2,
    ensures
        !(falls_around(g, h) && none_negative(h)),
{
    let n = g.len() as int;
    if falls_around(g, h) && none_negative(h) {
        assert forall|j: int| 0 <= j < n implies #[trigger] h[j] > 0 by {
            none_is_zero(g, h, j);
        }
        first_is_largest(g, h, n - 1);
        assert(polygon::next(n - 1, n) == 0);
        assert(g[n - 1] * h[0] > h[n - 1] * g[0]);
        let (a, b, c, d) = (g[0], h[n - 1], h[0], g[n - 1]);
        assert(a * b == b * a && c * d == d * c) by (nonlinear_arith);
    }
}

/// The turn between two offsets, seen along and across a direction.
proof fn turn_in_parts(dx: int, dy: int, ax: int, ay: int, bx: int, by: int)
    ensures
        (dx * ax + dy * ay) * (dx * by - dy * bx) - (dx * ay - dy * ax) * (dx * bx + dy * by) == (dx
            * dx + dy * dy) * (ax * by - ay * bx),
{
    let (p, q) = (dx * ax, dy * ay);
    let (s, t) = (dx * by, dy * bx);
    let (u, v) = (dx * ay, dy * ax);
    let (k, l) = (dx * bx, dy * by);
    assert((p + q) * (s - t) == p * s - p * t + q * s - q * t) by (nonlinear_arith);
    assert((u - v) * (k + l) == u * k + u * l - v * k - v * l) by (nonlinear_arith);
    assert(p * s == (dx * dx) * (ax * by)) by (nonlinear_arith)
        requires
            p == dx * ax,
            s == dx * by,
    ;
    assert(v * l == (dy * dy) * (ax * by)) by (nonlinear_arith)
        requires
            v == dy * ax,
            l == dy * by,
    ;
    assert(q * t == (dy * dy) * (ay * bx)) by (nonlinear_arith)
        requires
            q == dy * ay,
            t == dy * bx,
    ;
    assert(u * k == (dx * dx) * (ay * bx)) by (nonlinear_arith)
        requires
            u == dx * ay,
            k == dx * bx,
    ;
    assert(p * t == v * k) by (nonlinear_arith)
        requires
            p == dx * ax,
            t == dy * bx,
            v == dy * ax,
            k == dx * bx,
    ;
    assert(q * s == u * l) by (nonlinear_arith)
        requires
            q == dy * ay,
            s == dx * by,
            u == dx * ay,
            l == dy * by,
    ;
    let (m, o, x, y) = (dx * dx, dy * dy, ax * by, ay * bx);
    assert((m + o) * (x - y) == m * x - m * y + o * x - o * y) by (nonlinear_arith);
}

/// How far corner `j` lies along the direction from `u` to `v`.
spec fn along(u: Point, v: Point, c: Point) -> int {
    (v.x - u.x) * (c.x - u.x) + (v.y - u.y) * (c.y - u.y)
}

proof fn turn_of_an_edge(u: Point, v: Point, a: Point, b: Point)
    requires
        u != v,
    ensures
        along(u, v, a) * seg::cross(u, v, b) - seg::cross(u, v, a) * along(u, v, b) > 0
            <==> seg::cross(a, b, u) > 0,
        along(u, v, a) * seg::cross(u, v, b) - seg::cross(u, v, a) * along(u, v, b) < 0
            <==> seg::cross(a, b, u) < 0,
{
    let (dx, dy) = (v.x - u.x, v.y - u.y);
    let (ax, ay, bx, by) = (a.x - u.x, a.y - u.y, b.x - u.x, b.y - u.y);
    turn_in_parts(dx, dy, ax, ay, bx, by);
    let d = dx * dx + dy * dy;
    let c = ax * by - ay * bx;
    assert(d > 0) by (nonlinear_arith)
        requires
            d == dx * dx + dy * dy,
            dx != 0 || dy != 0,
    ;
    assert((bx - ax) * (-ay) - (by - ay) * (-ax) == c) by (nonlinear_arith)
        requires
            c == ax * by - ay * bx,
    ;
    assert((d * c > 0 <==> c > 0) && (d * c < 0 <==> c < 0)) by (nonlinear_arith)
        requires
            d > 0,
    ;
}

proof fn corners_on_both_sides(r: Seq<Point>, u: Point, v: Point)
    requires
        r.len() >= 3,
        strictly_inside(r, u),
        u != v,
    ensures
        !interior::all_left(r, u, v),
        !interior::all_right(r, u, v),
{
    let n = r.len() as int;
    let left = interior::turns_left(r) && forall|i: int|
        0 <= i < r.len() ==> seg::cross(#[trigger] r[i], interior::tip(r, i), u) > 0;
    let s: int = if left {
        1
    } else {
        -1
    };
    if interior::all_left(r, u, v) {
        let g = Seq::new(r.len(), |j: int| s * along(u, v, r[j]));
        let h = Seq::new(r.len(), |j: int| seg::cross(u, v, r[j]));
        ring_falls(r, u, v, g, h, s);
        assert(none_negative(h));
        nothing_falls_around(g, h);
    }
    if interior::all_right(r, u, v) {
        let g = Seq::new(r.len(), |j: int| s * -along(u, v, r[j]));
        let h = Seq::new(r.len(), |j: int| -seg::cross(u, v, r[j]));
        let f = Seq::new(r.len(), |j: int| s * along(u, v, r[j]));
        let k = Seq::new(r.len(), |j: int| seg::cross(u, v, r[j]));
        ring_falls(r, u, v, f, k, s);
        assert forall|i: int| 0 <= i < n implies #[trigger] g[i] * h[polygon::next(i, n)] > h[i]
            * g[polygon::next(i, n)] by {
            let j = polygon::next(i, n);
            assert(f[i] * k[j] > k[i] * f[j]);
            assert(g[i] == -f[i] && g[j] == -f[j]) by (nonlinear_arith)
                requires
                    g[i] == s * -along(u, v, r[i]),
                    f[i] == s * along(u, v, r[i]),
                    g[j] == s * -along(u, v, r[j]),
                    f[j] == s * along(u, v, r[j]),
            ;
            assert(h[i] == -k[i] && h[j] == -k[j]);
            let (a, b, c, d) = (f[i], k[j], k[i], f[j]);
            assert((-a) * (-b) == a * b && (-c) * (-d) == c * d) by (nonlinear_arith);
        }
        assert(falls_around(g, h));
        assert forall|i: int| 0 <= i < h.len() implies #[trigger] h[i] >= 0 by {
            assert(seg::cross(u, v, r[i]) <= 0);
        }
        assert(none_negative(h));
        nothing_falls_around(g, h);
    }
}

proof fn ring_falls(r: Seq<Point>, u: Point, v: Point, g: Seq<int>, h: Seq<int>, s: int)
    requires
        r.len() >= 3,
        strictly_inside(r, u),
        u != v,
        s == if interior::turns_left(r) && forall|i: int|
            0 <= i < r.len() ==> seg::cross(#[trigger] r[i], interior::tip(r, i), u) > 0 {
            1int
        } else {
            -1int
        },
        g == Seq::new(r.len(), |j: int| s * along(u, v, r[j])),
        h == Seq::new(r.len(), |j: int| seg::cross(u, v, r[j])),
    ensures
        falls_around(g, h),
{
    let n = r.len() as int;
    assert forall|i: int| 0 <= i < n implies #[trigger] g[i] * h[polygon::next(i, n)] > h[i]
        * g[polygon::next(i, n)] by {
        let j = polygon::next(i, n);
        turn_of_an_edge(u, v, r[i], r[j]);
        assert(r[j] == interior::tip(r, i));
        let (a, b, c, d) = (
            along(u, v, r[i]),
            seg::cross(u, v, r[j]),
            seg::cross(u, v, r[i]),
            along(u, v, r[j]),
        );
        assert((s * a) * b == s * (a * b) && c * (s * d) == s * (c * d)) by (nonlinear_arith);
    }
}

/// A line that starts strictly inside a convex ring passes through its inside, wherever it
/// leads.
pub proof fn a_line_from_inside_enters(u: Point, v: Point, r: Seq<Point>)
    requires
        interior::convex(r),
        strictly_inside(r, u),
    ensures
        interior::enters(u, v, r),
{
    if u != v {
        corners_on_both_sides(r, u, v);
    }
    assert forall|i: int| 0 <= i < r.len() implies !#[trigger] interior::parted_by(r, i, u, v) by {
        assert(seg::cross(r[i], interior::tip(r, i), u) != 0);
    }
}

/// Shapes that meet overlap where a line of one starts strictly inside the other, a convex
/// polygon.
pub proof fn a_shape_that_starts_inside_overlaps(a: ShapeV, b: ShapeV, i: int)
    requires
        interior::is_convex(b),
        clearance::overlap(a, b),
        0 <= i < shape::edges(a).len(),
        strictly_inside(shape::skeleton(b), shape::edges(a)[i].0),
    ensures
        interior::insides_meet(a, b),
{
    let (u, v) = shape::edges(a)[i];
    a_line_from_inside_enters(u, v, shape::skeleton(b));
    assert(interior::enters(shape::edges(a)[i].0, shape::edges(a)[i].1, shape::skeleton(b)));
}

} // verus!
