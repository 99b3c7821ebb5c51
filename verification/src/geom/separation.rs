//! How far segments are apart: the tests on their ends tell the distance of all their points.

use super::nearness;
use super::nearness::{fraction, grow, off2, regroup, spread, square, swap};
use super::seg;
use crate::coord::Point;
use crate::precision;
use vstd::prelude::*;

verus! {

/// The point of a segment that is the fraction `s` along it, in one coordinate.
pub open spec fn part_way(from: i64, to: i64, s: real) -> real {
    from as real + s * (to as real - from as real)
}

/// The squared distance between the point of `a1`–`a2` that is the fraction `s` along it and
/// the point of `b1`–`b2` that is the fraction `t` along it.
pub open spec fn gap2(a1: Point, a2: Point, b1: Point, b2: Point, s: real, t: real) -> real {
    let dx = part_way(a1.x, a2.x, s) - part_way(b1.x, b2.x, t);
    let dy = part_way(a1.y, a2.y, s) - part_way(b1.y, b2.y, t);
    dx * dx + dy * dy
}

/// Some point of one segment and some point of the other are the same.
pub open spec fn share_a_point(a1: Point, a2: Point, b1: Point, b2: Point) -> bool {
    exists|s: real, t: real|
        fraction(s) && fraction(t) && #[trigger] gap2(a1, a2, b1, b2, s, t) == 0 as real
}

/// Some point of one segment and some point of the other are nearer than `√thr2`.
pub open spec fn points_within(a1: Point, a2: Point, b1: Point, b2: Point, thr2: int) -> bool {
    exists|s: real, t: real|
        fraction(s) && fraction(t) && #[trigger] gap2(a1, a2, b1, b2, s, t) < thr2 as real
}

/// Some point of one segment and some point of the other are no farther apart than `√thr2`.
pub open spec fn points_reach(a1: Point, a2: Point, b1: Point, b2: Point, thr2: int) -> bool {
    exists|s: real, t: real|
        fraction(s) && fraction(t) && #[trigger] gap2(a1, a2, b1, b2, s, t) <= thr2 as real
}

/// An end of the range of fractions.
spec fn at_end(x: real) -> bool {
    x == 0 as real || x == 1 as real
}

// ---------------------------------------------------------------------------
// Sliding to an end.
// ---------------------------------------------------------------------------

/// How far a fraction can move by `p` before it leaves its range.
proof fn reach_end(s: real, p: real) -> (l: real)
    requires
        fraction(s),
    ensures
        fraction(l),
        fraction(s + l * p),
        l == 1 as real || at_end(s + l * p),
{
    if s + p > 1 as real {
        let l = (1 as real - s) / p;
        assert(l * p == 1 as real - s) by (nonlinear_arith)
            requires
                l == (1 as real - s) / p,
                p > 0 as real,
        ;
        assert(fraction(l)) by (nonlinear_arith)
            requires
                l * p == 1 as real - s,
                0 as real <= 1 as real - s <= p,
                p > 0 as real,
        ;
        l
    } else if s + p < 0 as real {
        let n = 0 as real - p;
        let l = s / n;
        assert(l * n == s) by (nonlinear_arith)
            requires
                l == s / n,
                n > 0 as real,
        ;
        assert(fraction(l)) by (nonlinear_arith)
            requires
                l * n == s,
                0 as real <= s <= n,
                n > 0 as real,
        ;
        assert(l * p == 0 as real - l * n) by (nonlinear_arith)
            requires
                n == 0 as real - p,
        ;
        l
    } else {
        assert(1 as real * p == p) by (nonlinear_arith);
        1 as real
    }
}

/// A fraction that does not leave its range by a move does not by a shorter one.
proof fn shorter_move(t: real, q: real, l: real, m: real)
    requires
        fraction(t),
        fraction(t + m * q),
        0 as real <= l <= m,
    ensures
        fraction(t + l * q),
{
    if q >= 0 as real {
        grow(l, m, q);
        grow(0 as real, l, q);
        assert(0 as real * q == 0 as real) by (nonlinear_arith);
    } else {
        let n = 0 as real - q;
        grow(l, m, n);
        grow(0 as real, l, n);
        assert(0 as real * n == 0 as real) by (nonlinear_arith);
        assert(l * n == 0 as real - l * q) by (nonlinear_arith)
            requires
                n == 0 as real - q,
        ;
        assert(m * n == 0 as real - m * q) by (nonlinear_arith)
            requires
                n == 0 as real - q,
        ;
    }
}

/// How far two fractions can move together before one leaves its range.
proof fn reach_border(s: real, t: real, p: real, q: real) -> (l: real)
    requires
        fraction(s),
        fraction(t),
    ensures
        fraction(l),
        fraction(s + l * p),
        fraction(t + l * q),
        l == 1 as real || at_end(s + l * p) || at_end(t + l * q),
{
    let a = reach_end(s, p);
    let b = reach_end(t, q);
    if a <= b {
        shorter_move(t, q, a, b);
        a
    } else {
        shorter_move(s, p, b, a);
        b
    }
}

/// One coordinate of the difference of two points, after a move.
proof fn moved(w: real, u: real, v: real, s: real, t: real, p: real, q: real, l: real)
    ensures
        w + (s + l * p) * u - (t + l * q) * v == (w + s * u - t * v) + l * (p * u - q * v),
{
    spread(u, s, l * p);
    spread(v, t, l * q);
    swap(u, s);
    swap(v, t);
    swap(u, l * p);
    swap(v, l * q);
    regroup(l, p, u);
    regroup(l, q, v);
    spread(l, p * u, q * v);
}

/// The squared length of a vector shrinks with it.
proof fn shrunk(dx: real, dy: real, l: real)
    requires
        fraction(l),
    ensures
        (dx - l * dx) * (dx - l * dx) + (dy - l * dy) * (dy - l * dy) <= dx * dx + dy * dy,
{
    let k = 1 as real - l;
    assert(dx - l * dx == k * dx) by (nonlinear_arith)
        requires
            k == 1 as real - l,
    ;
    assert(dy - l * dy == k * dy) by (nonlinear_arith)
        requires
            k == 1 as real - l,
    ;
    assert((k * dx) * (k * dx) == (k * k) * (dx * dx)) by (nonlinear_arith);
    assert((k * dy) * (k * dy) == (k * k) * (dy * dy)) by (nonlinear_arith);
    square(dx);
    square(dy);
    assert(k * k <= 1 as real) by (nonlinear_arith)
        requires
            0 as real <= k <= 1 as real,
    ;
    grow(k * k, 1 as real, dx * dx);
    grow(k * k, 1 as real, dy * dy);
    assert(1 as real * (dx * dx) == dx * dx && 1 as real * (dy * dy) == dy * dy)
        by (nonlinear_arith);
}

/// One coordinate of the point where two lines cross.
proof fn crossing_coordinate(
    u: (real, real),
    v: (real, real),
    w: (real, real),
    k: real,
    s: real,
    t: real,
)
    requires
        k == u.0 * v.1 - u.1 * v.0,
        k != 0 as real,
        s * k == v.0 * w.1 - v.1 * w.0,
        t * k == u.0 * w.1 - u.1 * w.0,
    ensures
        w.0 + s * u.0 - t * v.0 == 0 as real,
        w.1 + s * u.1 - t * v.1 == 0 as real,
{
    let (x, y) = (w.0 + s * u.0 - t * v.0, w.1 + s * u.1 - t * v.1);
    cancel(u.0, u.1, v.0, v.1, w.0, w.1, k, s, t, x);
    assert((0 as real - k) == u.1 * v.0 - u.0 * v.1);
    let n = 0 as real - k;
    assert(s * n == v.1 * w.0 - v.0 * w.1) by (nonlinear_arith)
        requires
            n == 0 as real - k,
            s * k == v.0 * w.1 - v.1 * w.0,
    ;
    assert(t * n == u.1 * w.0 - u.0 * w.1) by (nonlinear_arith)
        requires
            n == 0 as real - k,
            t * k == u.0 * w.1 - u.1 * w.0,
    ;
    cancel(u.1, u.0, v.1, v.0, w.1, w.0, n, s, t, y);
}

proof fn cancel(
    a: real,
    b: real,
    c: real,
    d: real,
    e: real,
    f: real,
    k: real,
    s: real,
    t: real,
    x: real,
)
    requires
        k == a * d - b * c,
        k != 0 as real,
        s * k == c * f - d * e,
        t * k == a * f - b * e,
        x == e + s * a - t * c,
    ensures
        x == 0 as real,
{
    // k·x = k·e + (s·k)·a − (t·k)·c, in which every term occurs twice.
    spread(k, e + s * a, t * c);
    spread(k, e, s * a);
    regroup(k, s, a);
    swap(k, s);
    regroup(k, t, c);
    swap(k, t);
    assert(k * x == k * e + (s * k) * a - (t * k) * c);
    spread(e, a * d, b * c);
    swap(k, e);
    spread(a, c * f, d * e);
    swap(a, s * k);
    spread(c, a * f, b * e);
    swap(c, t * k);
    assert(e * (a * d) == a * (d * e)) by (nonlinear_arith);
    assert(e * (b * c) == c * (b * e)) by (nonlinear_arith);
    assert(a * (c * f) == c * (a * f)) by (nonlinear_arith);
    assert(k * x == 0 as real);
    assert(x == 0 as real) by (nonlinear_arith)
        requires
            k * x == 0 as real,
            k != 0 as real,
    ;
}

/// Two parallel directions, neither of which is zero, are multiples of each other.
proof fn parallel(u: (real, real), v: (real, real)) -> (q: real)
    requires
        u.0 * v.1 == u.1 * v.0,
        v.0 != 0 as real || v.1 != 0 as real,
    ensures
        u.0 == q * v.0,
        u.1 == q * v.1,
{
    if v.0 != 0 as real {
        let q = u.0 / v.0;
        assert(q * v.0 == u.0) by (nonlinear_arith)
            requires
                q == u.0 / v.0,
                v.0 != 0 as real,
        ;
        let (a, b, c, d) = (u.0, u.1, v.0, v.1);
        assert(b == q * d) by (nonlinear_arith)
            requires
                a == q * c,
                a * d == b * c,
                c != 0 as real,
        ;
        q
    } else {
        let q = u.1 / v.1;
        assert(q * v.1 == u.1) by (nonlinear_arith)
            requires
                q == u.1 / v.1,
                v.1 != 0 as real,
        ;
        let (a, b, c, d) = (u.0, u.1, v.0, v.1);
        assert(a == q * c) by (nonlinear_arith)
            requires
                b == q * d,
                a * d == b * c,
                d != 0 as real,
                c == 0 as real,
        ;
        q
    }
}

/// The squared difference of two points, in terms of the directions of their segments.
spec fn diff2(
    u: (real, real),
    v: (real, real),
    w: (real, real),
    s: real,
    t: real,
) -> real {
    let dx = w.0 + s * u.0 - t * v.0;
    let dy = w.1 + s * u.1 - t * v.1;
    dx * dx + dy * dy
}

/// Parallel segments have two points as near as any two, one of them an end.
proof fn slide_parallel(
    u: (real, real),
    v: (real, real),
    w: (real, real),
    s: real,
    t: real,
) -> (r: (real, real))
    requires
        fraction(s),
        fraction(t),
        u.0 * v.1 == u.1 * v.0,
    ensures
        fraction(r.0),
        fraction(r.1),
        at_end(r.0) || at_end(r.1),
        diff2(u, v, w, r.0, r.1) == diff2(u, v, w, s, t),
{
    if v.0 == 0 as real && v.1 == 0 as real {
        assert(t * (0 as real) == 0 as real && 0 as real * (0 as real) == 0 as real)
            by (nonlinear_arith);
        (s, 0 as real)
    } else {
        let k = parallel(u, v);
        // A move by two is too long for the first fraction.
        let (p, q) = (2 as real, 2 as real * k);
        let l = reach_border(s, t, p, q);
        regroup(2 as real, k, v.0);
        regroup(2 as real, k, v.1);
        assert(p * u.0 - q * v.0 == 0 as real && p * u.1 - q * v.1 == 0 as real);
        moved(w.0, u.0, v.0, s, t, p, q, l);
        moved(w.1, u.1, v.1, s, t, p, q, l);
        assert(l * (0 as real) == 0 as real) by (nonlinear_arith);
        if l == 1 as real {
            assert(1 as real * p == p) by (nonlinear_arith);
            assert(false);
        }
        (s + l * p, t + l * q)
    }
}

/// Two segments have two points as near as any two, such that one is an end or both are the
/// same.
proof fn slide(
    u: (real, real),
    v: (real, real),
    w: (real, real),
    s: real,
    t: real,
) -> (r: (real, real))
    requires
        fraction(s),
        fraction(t),
    ensures
        fraction(r.0),
        fraction(r.1),
        at_end(r.0) || at_end(r.1) || diff2(u, v, w, r.0, r.1) == 0 as real,
        diff2(u, v, w, r.0, r.1) <= diff2(u, v, w, s, t),
{
    let k = u.0 * v.1 - u.1 * v.0;
    if k == 0 as real {
        slide_parallel(u, v, w, s, t)
    } else {
        let (m, n) = (v.0 * w.1 - v.1 * w.0, u.0 * w.1 - u.1 * w.0);
        let (s0, t0) = (m / k, n / k);
        assert(s0 * k == m) by (nonlinear_arith)
            requires
                s0 == m / k,
                k != 0 as real,
        ;
        assert(t0 * k == n) by (nonlinear_arith)
            requires
                t0 == n / k,
                k != 0 as real,
        ;
        crossing_coordinate(u, v, w, k, s0, t0);
        let (p, q) = (s0 - s, t0 - t);
        let l = reach_border(s, t, p, q);
        let (dx, dy) = (w.0 + s * u.0 - t * v.0, w.1 + s * u.1 - t * v.1);
        moved(w.0, u.0, v.0, s, t, p, q, l);
        moved(w.1, u.1, v.1, s, t, p, q, l);
        moved(w.0, u.0, v.0, s, t, p, q, 1 as real);
        moved(w.1, u.1, v.1, s, t, p, q, 1 as real);
        let (ex, ey) = (p * u.0 - q * v.0, p * u.1 - q * v.1);
        assert(1 as real * p == p && 1 as real * q == q && 1 as real * ex == ex && 1 as real * ey
            == ey) by (nonlinear_arith);
        assert(ex == 0 as real - dx && ey == 0 as real - dy);
        assert(l * ex == 0 as real - l * dx) by (nonlinear_arith)
            requires
                ex == 0 as real - dx,
        ;
        assert(l * ey == 0 as real - l * dy) by (nonlinear_arith)
            requires
                ey == 0 as real - dy,
        ;
        shrunk(dx, dy, l);
        if l == 1 as real {
            assert(1 as real * dx == dx && 1 as real * dy == dy && 0 as real * (0 as real)
                == 0 as real) by (nonlinear_arith);
        }
        (s + l * p, t + l * q)
    }
}

// ---------------------------------------------------------------------------
// Segments between lattice points.
// ---------------------------------------------------------------------------

spec fn direction(a: Point, b: Point) -> (real, real) {
    (b.x as real - a.x as real, b.y as real - a.y as real)
}

proof fn gap_is_diff(a1: Point, a2: Point, b1: Point, b2: Point, s: real, t: real)
    ensures
        gap2(a1, a2, b1, b2, s, t) == diff2(
            direction(a1, a2),
            direction(b1, b2),
            direction(b1, a1),
            s,
            t,
        ),
{
}

proof fn no_way(x: real)
    ensures
        0 as real * x == 0 as real,
        1 as real * x == x,
{
    assert(0 as real * x == 0 as real && 1 as real * x == x) by (nonlinear_arith);
}

proof fn opposite_square(x: real, y: real)
    requires
        x == 0 as real - y,
    ensures
        x * x == y * y,
{
    assert(x * x == y * y) by (nonlinear_arith)
        requires
            x == 0 as real - y,
    ;
}

/// From an end of one segment the gap is that of a point and a segment.
proof fn gap_from_an_end(a1: Point, a2: Point, b1: Point, b2: Point, x: real)
    ensures
        gap2(a1, a2, b1, b2, 0 as real, x) == off2(a1, b1, b2, x),
        gap2(a1, a2, b1, b2, 1 as real, x) == off2(a2, b1, b2, x),
        gap2(a1, a2, b1, b2, x, 0 as real) == off2(b1, a1, a2, x),
        gap2(a1, a2, b1, b2, x, 1 as real) == off2(b2, a1, a2, x),
{
    no_way(a2.x as real - a1.x as real);
    no_way(a2.y as real - a1.y as real);
    no_way(b2.x as real - b1.x as real);
    no_way(b2.y as real - b1.y as real);
    let (ux, uy) = ((a2.x - a1.x) as real, (a2.y - a1.y) as real);
    opposite_square(
        a1.x as real + x * ux - b1.x as real,
        (b1.x - a1.x) as real - x * ux,
    );
    opposite_square(
        a1.y as real + x * uy - b1.y as real,
        (b1.y - a1.y) as real - x * uy,
    );
    opposite_square(
        a1.x as real + x * ux - b2.x as real,
        (b2.x - a1.x) as real - x * ux,
    );
    opposite_square(
        a1.y as real + x * uy - b2.y as real,
        (b2.y - a1.y) as real - x * uy,
    );
}

proof fn zero_squares(x: real, y: real)
    ensures
        x * x + y * y == 0 as real <==> x == 0 as real && y == 0 as real,
        x * x + y * y >= 0 as real,
{
    square(x);
    square(y);
    if x * x + y * y == 0 as real {
        assert(x == 0 as real) by (nonlinear_arith)
            requires
                x * x == 0 as real,
        ;
        assert(y == 0 as real) by (nonlinear_arith)
            requires
                y * y == 0 as real,
        ;
    }
    no_way(0 as real);
}

/// A coordinate that is a fraction of the way lies between the ends.
proof fn between(d: real, w: real, t: real)
    requires
        fraction(t),
        w == t * d,
    ensures
        0 as real <= w <= d || d <= w <= 0 as real,
{
    if d >= 0 as real {
        grow(0 as real, t, d);
        grow(t, 1 as real, d);
        no_way(d);
    } else {
        let n = 0 as real - d;
        grow(0 as real, t, n);
        grow(t, 1 as real, n);
        no_way(n);
        assert(t * n == 0 as real - t * d) by (nonlinear_arith)
            requires
                n == 0 as real - d,
        ;
    }
}

/// The point that is some fraction of the way along a segment is on it.
proof fn fraction_is_on(a: Point, b: Point, p: Point, t: real)
    requires
        fraction(t),
        off2(p, a, b, t) == 0 as real,
    ensures
        seg::on_segment(a, b, p),
{
    let (dx, dy) = (b.x - a.x, b.y - a.y);
    let (wx, wy) = (p.x - a.x, p.y - a.y);
    let (rx, ry) = (dx as real, dy as real);
    zero_squares(wx as real - t * rx, wy as real - t * ry);
    between(rx, wx as real, t);
    between(ry, wy as real, t);
    precision::int_product(dx, wy);
    precision::int_product(dy, wx);
    regroup(rx, t, ry);
    regroup(ry, t, rx);
    swap(rx, t);
    swap(ry, t);
    regroup(t, rx, ry);
    regroup(t, ry, rx);
    swap(rx, ry);
    assert((dx * wy) as real == (dy * wx) as real);
}

/// A point on a segment is some fraction of the way along it.
proof fn on_is_fraction(a: Point, b: Point, p: Point) -> (t: real)
    requires
        seg::on_segment(a, b, p),
    ensures
        fraction(t),
        off2(p, a, b, t) == 0 as real,
{
    let (dx, dy) = (b.x - a.x, b.y - a.y);
    let (wx, wy) = (p.x - a.x, p.y - a.y);
    let (rx, ry, qx, qy) = (dx as real, dy as real, wx as real, wy as real);
    precision::int_product(dx, wy);
    precision::int_product(dy, wx);
    assert(rx * qy == ry * qx);
    zero_squares(0 as real, 0 as real);
    if dx == 0 && dy == 0 {
        no_way(0 as real);
        0 as real
    } else if dx != 0 {
        let t = qx / rx;
        assert(t * rx == qx) by (nonlinear_arith)
            requires
                t == qx / rx,
                rx != 0 as real,
        ;
        assert(fraction(t)) by (nonlinear_arith)
            requires
                t * rx == qx,
                rx != 0 as real,
                0 as real <= qx <= rx || rx <= qx <= 0 as real,
        ;
        assert(t * ry == qy) by (nonlinear_arith)
            requires
                t * rx == qx,
                rx * qy == ry * qx,
                rx != 0 as real,
        ;
        t
    } else {
        let t = qy / ry;
        assert(t * ry == qy) by (nonlinear_arith)
            requires
                t == qy / ry,
                ry != 0 as real,
        ;
        assert(fraction(t)) by (nonlinear_arith)
            requires
                t * ry == qy,
                ry != 0 as real,
                0 as real <= qy <= ry || ry <= qy <= 0 as real,
        ;
        assert(t * rx == 0 as real) by (nonlinear_arith)
            requires
                rx == 0 as real,
        ;
        t
    }
}

/// On which side the ends of each segment are of the other.
proof fn sides(a1: Point, a2: Point, b1: Point, b2: Point)
    ensures
        ({
            let (u, v, w) = (direction(a1, a2), direction(b1, b2), direction(b1, a1));
            let (m, n) = (v.0 * w.1 - v.1 * w.0, u.0 * w.1 - u.1 * w.0);
            let k = u.0 * v.1 - u.1 * v.0;
            &&& seg::cross(b1, b2, a1) as real == m
            &&& seg::cross(b1, b2, a2) as real == m - k
            &&& seg::cross(a1, a2, b1) as real == 0 as real - n
            &&& seg::cross(a1, a2, b2) as real == k - n
        }),
{
    let (ux, uy) = (a2.x - a1.x, a2.y - a1.y);
    let (vx, vy) = (b2.x - b1.x, b2.y - b1.y);
    let (wx, wy) = (a1.x - b1.x, a1.y - b1.y);
    precision::int_product(vx, wy);
    precision::int_product(vy, wx);
    precision::int_product(ux, wy);
    precision::int_product(uy, wx);
    precision::int_product(ux, vy);
    precision::int_product(uy, vx);
    assert(vx * (wy + uy) == vx * wy + uy * vx) by (nonlinear_arith);
    assert(vy * (wx + ux) == vy * wx + ux * vy) by (nonlinear_arith);
    assert(ux * (-wy) == -(ux * wy) && uy * (-wx) == -(uy * wx)) by (nonlinear_arith);
    assert(ux * (vy - wy) == ux * vy - ux * wy) by (nonlinear_arith);
    assert(uy * (vx - wx) == uy * vx - uy * wx) by (nonlinear_arith);
    assert(a2.x - b1.x == wx + ux && a2.y - b1.y == wy + uy);
    assert(b2.x - a1.x == vx - wx && b2.y - a1.y == vy - wy);
}

/// Segments that cross, by the sides that their ends are on, share a point.
proof fn crossing_shares(a1: Point, a2: Point, b1: Point, b2: Point)
    requires
        seg::sign(seg::cross(b1, b2, a1)) != seg::sign(seg::cross(b1, b2, a2)),
        seg::sign(seg::cross(a1, a2, b1)) != seg::sign(seg::cross(a1, a2, b2)),
    ensures
        share_a_point(a1, a2, b1, b2),
{
    let (u, v, w) = (direction(a1, a2), direction(b1, b2), direction(b1, a1));
    let (m, n) = (v.0 * w.1 - v.1 * w.0, u.0 * w.1 - u.1 * w.0);
    let k = u.0 * v.1 - u.1 * v.0;
    sides(a1, a2, b1, b2);
    assert(k != 0 as real);
    let (s, t) = (m / k, n / k);
    assert(s * k == m) by (nonlinear_arith)
        requires
            s == m / k,
            k != 0 as real,
    ;
    assert(t * k == n) by (nonlinear_arith)
        requires
            t == n / k,
            k != 0 as real,
    ;
    assert(fraction(s)) by (nonlinear_arith)
        requires
            s * k == m,
            k != 0 as real,
            0 as real <= m <= k || k <= m <= 0 as real,
    ;
    assert(fraction(t)) by (nonlinear_arith)
        requires
            t * k == n,
            k != 0 as real,
            0 as real <= n <= k || k <= n <= 0 as real,
    ;
    crossing_coordinate(u, v, w, k, s, t);
    gap_is_diff(a1, a2, b1, b2, s, t);
    zero_squares(0 as real, 0 as real);
    assert(gap2(a1, a2, b1, b2, s, t) == 0 as real);
}

/// Where two segments share a point, an end of one is on the other or they cross properly.
pub proof fn shared_point_crosses(a1: Point, a2: Point, b1: Point, b2: Point, s: real, t: real)
    requires
        fraction(s),
        fraction(t),
        gap2(a1, a2, b1, b2, s, t) == 0 as real,
    ensures
        ({
            let (c1, c2) = (seg::cross(b1, b2, a1), seg::cross(b1, b2, a2));
            let (c3, c4) = (seg::cross(a1, a2, b1), seg::cross(a1, a2, b2));
            ||| ((c1 > 0 && c2 < 0) || (c1 < 0 && c2 > 0)) && ((c3 > 0 && c4 < 0) || (c3 < 0 && c4
                > 0))
            ||| seg::on_segment(b1, b2, a1)
            ||| seg::on_segment(b1, b2, a2)
            ||| seg::on_segment(a1, a2, b1)
            ||| seg::on_segment(a1, a2, b2)
        }),
{
    let (u, v, w) = (direction(a1, a2), direction(b1, b2), direction(b1, a1));
    let k = u.0 * v.1 - u.1 * v.0;
    gap_is_diff(a1, a2, b1, b2, s, t);
    if at_end(s) || at_end(t) {
        shared_end_is_on(a1, a2, b1, b2, s, t);
    } else if k == 0 as real {
        let (p, q) = slide_parallel(u, v, w, s, t);
        gap_is_diff(a1, a2, b1, b2, p, q);
        shared_end_is_on(a1, a2, b1, b2, p, q);
    } else {
        let (m, n) = (v.0 * w.1 - v.1 * w.0, u.0 * w.1 - u.1 * w.0);
        let (dx, dy) = (w.0 + s * u.0 - t * v.0, w.1 + s * u.1 - t * v.1);
        zero_squares(dx, dy);
        // v × d = m − s·k and u × d = n − t·k.
        turn_of(v, w, u, s, t, dx, dy);
        turn_of_other(u, w, v, s, t, dx, dy);
        no_way(0 as real);
        assert(v.0 * (0 as real) == 0 as real && v.1 * (0 as real) == 0 as real && u.0 * (0 as real)
            == 0 as real && u.1 * (0 as real) == 0 as real) by (nonlinear_arith);
        assert(m == s * k && n == t * k);
        sides(a1, a2, b1, b2);
        assert((s * k > 0 as real && s * k - k < 0 as real) || (s * k < 0 as real && s * k - k
            > 0 as real)) by (nonlinear_arith)
            requires
                (0 as real) < s,
                s < 1 as real,
                k != 0 as real,
        ;
        assert((t * k > 0 as real && t * k - k < 0 as real) || (t * k < 0 as real && t * k - k
            > 0 as real)) by (nonlinear_arith)
            requires
                (0 as real) < t,
                t < 1 as real,
                k != 0 as real,
        ;
    }
}

/// `v × (w + s·u − t·v) = v × w − s·(u × v)`.
proof fn turn_of(
    v: (real, real),
    w: (real, real),
    u: (real, real),
    s: real,
    t: real,
    dx: real,
    dy: real,
)
    requires
        dx == w.0 + s * u.0 - t * v.0,
        dy == w.1 + s * u.1 - t * v.1,
    ensures
        v.0 * dy - v.1 * dx == (v.0 * w.1 - v.1 * w.0) - s * (u.0 * v.1 - u.1 * v.0),
{
    spread(v.0, w.1 + s * u.1, t * v.1);
    spread(v.0, w.1, s * u.1);
    spread(v.1, w.0 + s * u.0, t * v.0);
    spread(v.1, w.0, s * u.0);
    spread(s, u.0 * v.1, u.1 * v.0);
    let (a, b, c, d) = (v.0, v.1, u.0, u.1);
    assert(a * (t * b) == b * (t * a)) by (nonlinear_arith);
    assert(a * (s * d) == s * (d * a)) by (nonlinear_arith);
    assert(b * (s * c) == s * (c * b)) by (nonlinear_arith);
}

/// `u × (w + s·u − t·v) = u × w − t·(u × v)`.
proof fn turn_of_other(
    u: (real, real),
    w: (real, real),
    v: (real, real),
    s: real,
    t: real,
    dx: real,
    dy: real,
)
    requires
        dx == w.0 + s * u.0 - t * v.0,
        dy == w.1 + s * u.1 - t * v.1,
    ensures
        u.0 * dy - u.1 * dx == (u.0 * w.1 - u.1 * w.0) - t * (u.0 * v.1 - u.1 * v.0),
{
    spread(u.0, w.1 + s * u.1, t * v.1);
    spread(u.0, w.1, s * u.1);
    spread(u.1, w.0 + s * u.0, t * v.0);
    spread(u.1, w.0, s * u.0);
    spread(t, u.0 * v.1, u.1 * v.0);
    let (a, b, c, d) = (u.0, u.1, v.0, v.1);
    assert(a * (s * b) == b * (s * a)) by (nonlinear_arith);
    assert(a * (t * d) == t * (a * d)) by (nonlinear_arith);
    assert(b * (t * c) == t * (b * c)) by (nonlinear_arith);
}

proof fn shared_end_is_on(a1: Point, a2: Point, b1: Point, b2: Point, s: real, t: real)
    requires
        fraction(s),
        fraction(t),
        at_end(s) || at_end(t),
        gap2(a1, a2, b1, b2, s, t) == 0 as real,
    ensures
        seg::on_segment(b1, b2, a1) || seg::on_segment(b1, b2, a2) || seg::on_segment(a1, a2, b1)
            || seg::on_segment(a1, a2, b2),
{
    if s == 0 as real {
        gap_from_an_end(a1, a2, b1, b2, t);
        fraction_is_on(b1, b2, a1, t);
    } else if s == 1 as real {
        gap_from_an_end(a1, a2, b1, b2, t);
        fraction_is_on(b1, b2, a2, t);
    } else if t == 0 as real {
        gap_from_an_end(a1, a2, b1, b2, s);
        fraction_is_on(a1, a2, b1, s);
    } else {
        gap_from_an_end(a1, a2, b1, b2, s);
        fraction_is_on(a1, a2, b2, s);
    }
}

/// An end of one segment that is on the other is a shared point.
proof fn end_on_shares(a1: Point, a2: Point, b1: Point, b2: Point)
    requires
        seg::on_segment(b1, b2, a1) || seg::on_segment(b1, b2, a2) || seg::on_segment(a1, a2, b1)
            || seg::on_segment(a1, a2, b2),
    ensures
        share_a_point(a1, a2, b1, b2),
{
    if seg::on_segment(b1, b2, a1) {
        let t = on_is_fraction(b1, b2, a1);
        gap_from_an_end(a1, a2, b1, b2, t);
        assert(gap2(a1, a2, b1, b2, 0 as real, t) == 0 as real);
    } else if seg::on_segment(b1, b2, a2) {
        let t = on_is_fraction(b1, b2, a2);
        gap_from_an_end(a1, a2, b1, b2, t);
        assert(gap2(a1, a2, b1, b2, 1 as real, t) == 0 as real);
    } else if seg::on_segment(a1, a2, b1) {
        let s = on_is_fraction(a1, a2, b1);
        gap_from_an_end(a1, a2, b1, b2, s);
        assert(gap2(a1, a2, b1, b2, s, 0 as real) == 0 as real);
    } else {
        let s = on_is_fraction(a1, a2, b2);
        gap_from_an_end(a1, a2, b1, b2, s);
        assert(gap2(a1, a2, b1, b2, s, 1 as real) == 0 as real);
    }
}

// ---------------------------------------------------------------------------
// Distances from the ends.
// ---------------------------------------------------------------------------

/// A point is within reach of a segment exactly when some point of the segment is.
proof fn point_test_is_exact(p: Point, a: Point, b: Point, thr2: int) -> (t: real)
    ensures
        fraction(t),
        seg::point_within(p, a, b, thr2) == (off2(p, a, b, t) < thr2 as real),
        seg::point_reaches(p, a, b, thr2) == (off2(p, a, b, t) <= thr2 as real),
        forall|u: real| fraction(u) ==> off2(p, a, b, t) <= #[trigger] off2(p, a, b, u),
{
    let t = nearness::distance_is_exact(p, a, b);
    let (num, den) = seg::dist2(p, a, b);
    let (o, d, h) = (off2(p, a, b, t), den as real, thr2 as real);
    precision::int_product(thr2, den);
    assert((o < h) == (o * d < h * d)) by (nonlinear_arith)
        requires
            d > 0 as real,
    ;
    assert((o <= h) == (o * d <= h * d)) by (nonlinear_arith)
        requires
            d > 0 as real,
    ;
    t
}

/// An end of one segment that is near the other is a point near it.
proof fn ends_are_points(a1: Point, a2: Point, b1: Point, b2: Point, thr2: int)
    ensures
        seg::ends_within(a1, a2, b1, b2, thr2) ==> points_within(a1, a2, b1, b2, thr2),
        seg::ends_reach(a1, a2, b1, b2, thr2) ==> points_reach(a1, a2, b1, b2, thr2),
{
    let t1 = point_test_is_exact(a1, b1, b2, thr2);
    let t2 = point_test_is_exact(a2, b1, b2, thr2);
    let s1 = point_test_is_exact(b1, a1, a2, thr2);
    let s2 = point_test_is_exact(b2, a1, a2, thr2);
    gap_from_an_end(a1, a2, b1, b2, t1);
    gap_from_an_end(a1, a2, b1, b2, t2);
    gap_from_an_end(a1, a2, b1, b2, s1);
    gap_from_an_end(a1, a2, b1, b2, s2);
    let h = thr2 as real;
    let g1 = gap2(a1, a2, b1, b2, 0 as real, t1);
    let g2 = gap2(a1, a2, b1, b2, 1 as real, t2);
    let g3 = gap2(a1, a2, b1, b2, s1, 0 as real);
    let g4 = gap2(a1, a2, b1, b2, s2, 1 as real);
    assert(g1 < h || g2 < h || g3 < h || g4 < h ==> points_within(a1, a2, b1, b2, thr2));
    assert(g1 <= h || g2 <= h || g3 <= h || g4 <= h ==> points_reach(a1, a2, b1, b2, thr2));
}

/// Of two points with an end among them, the distance is no smaller than that end's.
proof fn points_from_an_end(
    a1: Point,
    a2: Point,
    b1: Point,
    b2: Point,
    s: real,
    t: real,
    thr2: int,
)
    requires
        fraction(s),
        fraction(t),
        at_end(s) || at_end(t),
    ensures
        gap2(a1, a2, b1, b2, s, t) < thr2 as real ==> seg::ends_within(a1, a2, b1, b2, thr2),
        gap2(a1, a2, b1, b2, s, t) <= thr2 as real ==> seg::ends_reach(a1, a2, b1, b2, thr2),
{
    if s == 0 as real {
        let u = point_test_is_exact(a1, b1, b2, thr2);
        gap_from_an_end(a1, a2, b1, b2, t);
        assert(off2(a1, b1, b2, u) <= off2(a1, b1, b2, t));
    } else if s == 1 as real {
        let u = point_test_is_exact(a2, b1, b2, thr2);
        gap_from_an_end(a1, a2, b1, b2, t);
        assert(off2(a2, b1, b2, u) <= off2(a2, b1, b2, t));
    } else if t == 0 as real {
        let u = point_test_is_exact(b1, a1, a2, thr2);
        gap_from_an_end(a1, a2, b1, b2, s);
        assert(off2(b1, a1, a2, u) <= off2(b1, a1, a2, s));
    } else {
        let u = point_test_is_exact(b2, a1, a2, thr2);
        gap_from_an_end(a1, a2, b1, b2, s);
        assert(off2(b2, a1, a2, u) <= off2(b2, a1, a2, s));
    }
}

// ---------------------------------------------------------------------------
// Laws.
// ---------------------------------------------------------------------------

/// Segments meet exactly where some point of one is some point of the other.
pub proof fn meeting_is_sharing_a_point(a1: Point, a2: Point, b1: Point, b2: Point)
    ensures
        seg::segments_meet(a1, a2, b1, b2) <==> share_a_point(a1, a2, b1, b2),
{
    if seg::segments_meet(a1, a2, b1, b2) {
        if seg::on_segment(b1, b2, a1) || seg::on_segment(b1, b2, a2) || seg::on_segment(a1, a2, b1)
            || seg::on_segment(a1, a2, b2) {
            end_on_shares(a1, a2, b1, b2);
        } else {
            crossing_shares(a1, a2, b1, b2);
        }
    }
    if share_a_point(a1, a2, b1, b2) {
        let (s, t) = choose|s: real, t: real|
            fraction(s) && fraction(t) && #[trigger] gap2(a1, a2, b1, b2, s, t) == 0 as real;
        shared_point_crosses(a1, a2, b1, b2, s, t);
    }
}

/// The tests on the ends tell the distance of the segments: for two segments that do not
/// meet, they say "within" exactly when some point of one and some point of the other are
/// nearer than the threshold, and "reach" exactly when two points are no farther apart.
pub proof fn end_tests_are_exact(a1: Point, a2: Point, b1: Point, b2: Point, thr2: int)
    requires
        !seg::segments_meet(a1, a2, b1, b2),
    ensures
        seg::ends_within(a1, a2, b1, b2, thr2) <==> points_within(a1, a2, b1, b2, thr2),
        seg::ends_reach(a1, a2, b1, b2, thr2) <==> points_reach(a1, a2, b1, b2, thr2),
{
    ends_are_points(a1, a2, b1, b2, thr2);
    meeting_is_sharing_a_point(a1, a2, b1, b2);
    if points_within(a1, a2, b1, b2, thr2) {
        let (s, t) = choose|s: real, t: real|
            fraction(s) && fraction(t) && #[trigger] gap2(a1, a2, b1, b2, s, t) < thr2 as real;
        let (p, q) = nearest_with_an_end(a1, a2, b1, b2, s, t);
        points_from_an_end(a1, a2, b1, b2, p, q, thr2);
    }
    if points_reach(a1, a2, b1, b2, thr2) {
        let (s, t) = choose|s: real, t: real|
            fraction(s) && fraction(t) && #[trigger] gap2(a1, a2, b1, b2, s, t) <= thr2 as real;
        let (p, q) = nearest_with_an_end(a1, a2, b1, b2, s, t);
        points_from_an_end(a1, a2, b1, b2, p, q, thr2);
    }
}

proof fn nearest_with_an_end(
    a1: Point,
    a2: Point,
    b1: Point,
    b2: Point,
    s: real,
    t: real,
) -> (r: (real, real))
    requires
        fraction(s),
        fraction(t),
        !share_a_point(a1, a2, b1, b2),
    ensures
        fraction(r.0),
        fraction(r.1),
        at_end(r.0) || at_end(r.1),
        gap2(a1, a2, b1, b2, r.0, r.1) <= gap2(a1, a2, b1, b2, s, t),
{
    let (u, v, w) = (direction(a1, a2), direction(b1, b2), direction(b1, a1));
    let (p, q) = slide(u, v, w, s, t);
    gap_is_diff(a1, a2, b1, b2, s, t);
    gap_is_diff(a1, a2, b1, b2, p, q);
    if gap2(a1, a2, b1, b2, p, q) == 0 as real {
        assert(false);
    }
    (p, q)
}

/// Meeting or being near, for a positive threshold, is having two points that near.
pub proof fn near_or_meeting_is_exact(a1: Point, a2: Point, b1: Point, b2: Point, thr2: int)
    requires
        thr2 > 0,
    ensures
        seg::segments_meet(a1, a2, b1, b2) || seg::ends_within(a1, a2, b1, b2, thr2)
            <==> points_within(a1, a2, b1, b2, thr2),
{
    meeting_is_sharing_a_point(a1, a2, b1, b2);
    if seg::segments_meet(a1, a2, b1, b2) {
        let (s, t) = choose|s: real, t: real|
            fraction(s) && fraction(t) && #[trigger] gap2(a1, a2, b1, b2, s, t) == 0 as real;
        assert(gap2(a1, a2, b1, b2, s, t) < thr2 as real);
    } else {
        end_tests_are_exact(a1, a2, b1, b2, thr2);
    }
}

/// Meeting or reaching, for a threshold that is not negative, is having two points no farther
/// apart.
pub proof fn reaching_or_meeting_is_exact(a1: Point, a2: Point, b1: Point, b2: Point, thr2: int)
    requires
        thr2 >= 0,
    ensures
        seg::segments_meet(a1, a2, b1, b2) || seg::ends_reach(a1, a2, b1, b2, thr2)
            <==> points_reach(a1, a2, b1, b2, thr2),
{
    meeting_is_sharing_a_point(a1, a2, b1, b2);
    if seg::segments_meet(a1, a2, b1, b2) {
        let (s, t) = choose|s: real, t: real|
            fraction(s) && fraction(t) && #[trigger] gap2(a1, a2, b1, b2, s, t) == 0 as real;
        assert(gap2(a1, a2, b1, b2, s, t) <= thr2 as real);
    } else {
        end_tests_are_exact(a1, a2, b1, b2, thr2);
    }
}

/// Which way a segment runs makes no difference.
pub proof fn direction_does_not_matter(a1: Point, a2: Point, b1: Point, b2: Point, thr2: int)
    ensures
        seg::segments_meet(a2, a1, b1, b2) == seg::segments_meet(a1, a2, b1, b2),
        seg::ends_within(a2, a1, b1, b2, thr2) == seg::ends_within(a1, a2, b1, b2, thr2),
        seg::ends_reach(a2, a1, b1, b2, thr2) == seg::ends_reach(a1, a2, b1, b2, thr2),
{
    meeting_is_sharing_a_point(a1, a2, b1, b2);
    meeting_is_sharing_a_point(a2, a1, b1, b2);
    reversed_shares(a1, a2, b1, b2);
    reversed_shares(a2, a1, b1, b2);
    reversed_test(b1, a1, a2, thr2);
    reversed_test(b2, a1, a2, thr2);
}

proof fn reversed_gap(a1: Point, a2: Point, b1: Point, b2: Point, s: real, t: real)
    ensures
        gap2(a2, a1, b1, b2, 1 as real - s, t) == gap2(a1, a2, b1, b2, s, t),
{
    let (x, y) = (a2.x as real - a1.x as real, a2.y as real - a1.y as real);
    let (m, n) = (0 as real - x, 0 as real - y);
    let k = 1 as real - s;
    assert(k * m == s * x - x) by (nonlinear_arith)
        requires
            m == 0 as real - x,
            k == 1 as real - s,
    ;
    assert(k * n == s * y - y) by (nonlinear_arith)
        requires
            n == 0 as real - y,
            k == 1 as real - s,
    ;
}

proof fn reversed_shares(a1: Point, a2: Point, b1: Point, b2: Point)
    ensures
        share_a_point(a1, a2, b1, b2) ==> share_a_point(a2, a1, b1, b2),
{
    if share_a_point(a1, a2, b1, b2) {
        let (s, t) = choose|s: real, t: real|
            fraction(s) && fraction(t) && #[trigger] gap2(a1, a2, b1, b2, s, t) == 0 as real;
        reversed_gap(a1, a2, b1, b2, s, t);
        assert(gap2(a2, a1, b1, b2, 1 as real - s, t) == 0 as real);
    }
}

proof fn reversed_test(p: Point, a: Point, b: Point, thr2: int)
    ensures
        seg::point_within(p, b, a, thr2) == seg::point_within(p, a, b, thr2),
        seg::point_reaches(p, b, a, thr2) == seg::point_reaches(p, a, b, thr2),
{
    let t = point_test_is_exact(p, a, b, thr2);
    let u = point_test_is_exact(p, b, a, thr2);
    reversed_gap(a, b, p, p, t, 0 as real);
    reversed_gap(b, a, p, p, u, 0 as real);
    gap_from_an_end(a, b, p, p, t);
    gap_from_an_end(b, a, p, p, 1 as real - t);
    gap_from_an_end(b, a, p, p, u);
    gap_from_an_end(a, b, p, p, 1 as real - u);
    assert(off2(p, b, a, 1 as real - t) == off2(p, a, b, t));
    assert(off2(p, a, b, 1 as real - u) == off2(p, b, a, u));
}

} // verus!
