//! How far the nearest boundary point may be off: at most a nanometre.

use super::clearance;
use super::closest;
use super::limits;
use super::path;
use super::seg;
use super::shape;
use super::shape::ShapeV;
use crate::binary64;
use crate::binary64::Real;
use crate::coord::Point;
use crate::precision;
use crate::precision::{near, size, value};
use vstd::prelude::*;

verus! {

/// The squared distance of `q` from the point of the segment `a`–`b` that is the fraction
/// `t` along it.
pub open spec fn off2(q: Point, a: Point, b: Point, t: real) -> real {
    let dx = (q.x - a.x) as real - t * ((b.x - a.x) as real);
    let dy = (q.y - a.y) as real - t * ((b.y - a.y) as real);
    dx * dx + dy * dy
}

/// `t` is a fraction of a segment.
pub open spec fn fraction(t: real) -> bool {
    0 as real <= t <= 1 as real
}

/// No point of the segment is nearer to `p` than the one at `t`.
pub open spec fn nearest_at(p: Point, a: Point, b: Point, t: real) -> bool {
    fraction(t) && forall|u: real| fraction(u) ==> off2(p, a, b, t) <= #[trigger] off2(p, a, b, u)
}

/// `q` is at most one away from the point of an edge that is the fraction `t` along it.
pub open spec fn beside(q: Point, e: (Point, Point), t: real) -> bool {
    fraction(t) && off2(q, e.0, e.1, t) <= 1 as real
}

/// The disc of radius `d` about `p` reaches the point of an edge that is the fraction `u`
/// along it.
pub open spec fn reaches(p: Point, e: (Point, Point), u: real, d: real) -> bool {
    fraction(u) && d >= 0 as real && off2(p, e.0, e.1, u) <= d * d
}

/// Held to the range from zero to `top`.
spec fn held_to(x: real, top: real) -> real {
    if x < 0 as real {
        0 as real
    } else if x > top {
        top
    } else {
        x
    }
}

// ---------------------------------------------------------------------------
// Products of real numbers.
// ---------------------------------------------------------------------------

/// A product can be taken either way.
pub proof fn swap(a: real, b: real)
    ensures
        a * b == b * a,
{
    assert(a * b == b * a) by (nonlinear_arith);
}

/// A product of three can be grouped either way.
pub proof fn regroup(a: real, b: real, c: real)
    ensures
        a * (b * c) == (a * b) * c,
{
    assert(a * (b * c) == (a * b) * c) by (nonlinear_arith);
}

/// A factor goes to both terms.
pub proof fn spread(a: real, b: real, c: real)
    ensures
        a * (b + c) == a * b + a * c,
        (b + c) * a == a * b + a * c,
        a * (b - c) == a * b - a * c,
        (b - c) * a == a * b - a * c,
{
    assert(a * (b + c) == a * b + a * c) by (nonlinear_arith);
    assert(a * (b - c) == a * b - a * c) by (nonlinear_arith);
    swap(a, b + c);
    swap(a, b - c);
}

/// A factor that is not negative keeps the order.
pub proof fn grow(a: real, b: real, c: real)
    requires
        a <= b,
        c >= 0 as real,
    ensures
        a * c <= b * c,
        c * a <= c * b,
{
    assert(a * c <= b * c) by (nonlinear_arith)
        requires
            a <= b,
            c >= 0 as real,
    ;
    swap(a, c);
    swap(b, c);
}

/// A square is not negative.
pub proof fn square(a: real)
    ensures
        a * a >= 0 as real,
{
    assert(a * a >= 0 as real) by (nonlinear_arith);
}

proof fn size_of_product(a: real, b: real)
    ensures
        size(a * b) == size(a) * size(b),
{
    let (x, y) = (size(a), size(b));
    assert(size(a * b) == x * y) by {
        assert((0 as real - a) * b == 0 as real - a * b) by (nonlinear_arith);
        assert(a * (0 as real - b) == 0 as real - a * b) by (nonlinear_arith);
        assert((0 as real - a) * (0 as real - b) == a * b) by (nonlinear_arith);
        assert(x * y >= 0 as real) by (nonlinear_arith)
            requires
                x >= 0 as real,
                y >= 0 as real,
        ;
    }
}

/// Holding a parameter to its range brings it no further off.
proof fn held_error(t0: real, t: real, len: real, d: real)
    requires
        len > 0 as real,
        t == held_to(t0, 1 as real),
    ensures
        size(t * len - held_to(d, len)) <= size(t0 * len - d),
{
    assert(t0 < 0 as real ==> t0 * len < 0 as real) by (nonlinear_arith)
        requires
            len > 0 as real,
    ;
    assert(t0 > 1 as real ==> t0 * len > len) by (nonlinear_arith)
        requires
            len > 0 as real,
    ;
    assert(t0 >= 0 as real ==> t0 * len >= 0 as real) by (nonlinear_arith)
        requires
            len > 0 as real,
    ;
    assert(t0 <= 1 as real ==> t0 * len <= len) by (nonlinear_arith)
        requires
            len > 0 as real,
    ;
    assert(0 as real * len == 0 as real && 1 as real * len == len) by (nonlinear_arith);
}

/// A rounded sum of two rounded numbers, each at most `g` in size.
proof fn sum_error(p1: real, p2: real, x: real, y: real, dot: real, g: real)
    requires
        size(p1) <= g,
        size(p2) <= g,
        near(x, p1),
        near(y, p2),
        near(dot, x + y),
    ensures
        size(dot - (p1 + p2)) * (9_007_199_254_740_992 as real) <= 5 as real * g,
        size(dot) <= 3 as real * g,
{
    assert(size(x) <= size(p1) + size(x - p1) && size(y) <= size(p2) + size(y - p2));
    assert(size(x + y) <= 3 as real * g);
    assert(size(dot - (p1 + p2)) <= size(dot - (x + y)) + size(x - p1) + size(y - p2));
    assert(size(dot) <= size(p1) + size(p2) + size(dot - (p1 + p2)));
}

/// A rounded sum of two rounded squares.
proof fn length_error(q1: real, q2: real, xx: real, yy: real, l: real)
    requires
        q1 >= 0 as real,
        q2 >= 0 as real,
        q1 + q2 > 0 as real,
        near(xx, q1),
        near(yy, q2),
        near(l, xx + yy),
    ensures
        size(l - (q1 + q2)) * (9_007_199_254_740_992 as real) <= 3 as real * (q1 + q2),
        l > 0 as real,
        q1 + q2 <= 2 as real * l,
{
    assert(size(xx + yy) <= 2 as real * (q1 + q2));
    assert(size(l - (q1 + q2)) <= size(l - (xx + yy)) + size(xx - q1) + size(yy - q2));
}

/// The scaled parameter of a projection whose rounded dividend and divisor are `dot` and `l`.
proof fn parameter_error(d: real, dot: real, len: real, l: real, t0: real, g: real)
    requires
        size(dot - d) * (9_007_199_254_740_992 as real) <= 5 as real * g,
        size(dot) <= 3 as real * g,
        size(l - len) * (9_007_199_254_740_992 as real) <= 3 as real * len,
        l > 0 as real,
        len <= 2 as real * l,
        near(t0 * l, dot),
    ensures
        size(t0 * len - d) * (9_007_199_254_740_992 as real) <= 32 as real * g,
{
    let tl = t0 * l;
    assert(size(tl - d) <= size(tl - dot) + size(dot - d));
    assert(size(tl) <= size(dot) + size(tl - dot));
    assert(size(tl) <= 4 as real * g);
    let (st, sd) = (size(t0), size(len - l));
    size_of_product(t0, l);
    size_of_product(t0, len - l);
    assert(size(l) == l && sd == size(l - len));
    grow(len, 2 as real * l, st);
    regroup(st, 2 as real, l);
    swap(st, 2 as real);
    regroup(2 as real, st, l);
    assert(st * len <= 8 as real * g);
    let off = 3 as real * len - sd * (9_007_199_254_740_992 as real);
    grow(0 as real, off, st);
    spread(st, 3 as real * len, sd * (9_007_199_254_740_992 as real));
    regroup(st, sd, 9_007_199_254_740_992 as real);
    regroup(st, 3 as real, len);
    swap(st, 3 as real);
    regroup(3 as real, st, len);
    assert(st * (0 as real) == 0 as real) by (nonlinear_arith);
    assert((st * sd) * (9_007_199_254_740_992 as real) <= 3 as real * (st * len));
    spread(t0, len, l);
    assert(t0 * len - d == (tl - d) + t0 * (len - l));
    assert(size(t0 * len - d) <= size(tl - d) + size(t0 * (len - l)));
}

/// What the parameter's error moves a coordinate by.
proof fn shift_error(e: real, v: real, m: real, len: real)
    requires
        size(v) <= m,
        m * m <= len,
        1 as real <= m,
        size(e) * (9_007_199_254_740_992 as real) <= 64_000_000_000_000 as real * m,
    ensures
        size(e * v) * (10_000 as real) <= 72 as real * len,
{
    let se = size(e);
    size_of_product(e, v);
    grow(size(v), m, se);
    let off = 64_000_000_000_000 as real * m - se * (9_007_199_254_740_992 as real);
    grow(0 as real, off, m);
    assert(m * (0 as real) == 0 as real) by (nonlinear_arith);
    spread(m, 64_000_000_000_000 as real * m, se * (9_007_199_254_740_992 as real));
    regroup(m, se, 9_007_199_254_740_992 as real);
    swap(m, se);
    regroup(m, 64_000_000_000_000 as real, m);
    swap(m, 64_000_000_000_000 as real);
    regroup(64_000_000_000_000 as real, m, m);
    assert((se * m) * (9_007_199_254_740_992 as real) <= 64_000_000_000_000 as real * (m * m));
}

/// How far a rounded coordinate is from the exact one of its parameter.
proof fn rounding_error(tv: real, a: real, z: real, y: real, r: real)
    requires
        size(tv) <= 2_000_000_000_000 as real,
        size(a) <= 2_000_000_000_000 as real,
        near(z, tv),
        near(y, a + z),
        size(r - y) * (2 as real) <= 1 as real,
    ensures
        size(r - a - tv) * (10_000 as real) <= 5_010 as real,
        size(y) <= 7_000_000_000_000 as real,
{
    assert(size(z) <= size(tv) + size(z - tv));
    assert(size(a + z) <= size(a) + size(z));
    assert(size(y) <= size(a + z) + size(y - (a + z)));
    assert(size(r - a - tv) <= size(r - y) + size(y - (a + z)) + size(z - tv));
}

/// One coordinate of the foot, in units of the squared length.
proof fn axis_error(t: real, v: real, len: real, top: real, a: real, r: real, m: real)
    requires
        size(v) <= m,
        m * m <= len,
        1 as real <= m,
        size(t * len - top) * (9_007_199_254_740_992 as real) <= 64_000_000_000_000 as real * m,
        size(r - a - t * v) * (10_000 as real) <= 5_010 as real,
    ensures
        size((r - a) * len - top * v) * (100 as real) <= 51 as real * len,
{
    let e = t * len - top;
    let d = r - a - t * v;
    shift_error(e, v, m, len);
    size_of_product(d, len);
    square(m);
    assert(size(len) == len);
    grow(size(d) * (10_000 as real), 5_010 as real, len);
    swap(size(d), 10_000 as real);
    regroup(10_000 as real, size(d), len);
    assert(size(d * len) * (10_000 as real) <= 5_010 as real * len);
    spread(len, r - a, t * v);
    spread(v, t * len, top);
    swap(v, t * len);
    swap(v, top);
    swap(len, r - a);
    swap(len, t * v);
    regroup(t, v, len);
    regroup(t, len, v);
    swap(v, len);
    assert((r - a) * len - top * v == d * len + e * v);
    assert(size(d * len + e * v) <= size(d * len) + size(e * v));
}

// ---------------------------------------------------------------------------
// Distances.
// ---------------------------------------------------------------------------

/// The square of a difference.
pub proof fn square_of_difference(w: real, x: real)
    ensures
        (w - x) * (w - x) == w * w - 2 as real * (w * x) + x * x,
{
    spread(w - x, w, x);
    spread(w, w, x);
    spread(x, w, x);
    swap(w, x);
    swap(w - x, w);
    swap(w - x, x);
}

/// The square of a sum.
pub proof fn square_of_sum(w: real, x: real)
    ensures
        (w + x) * (w + x) == w * w + 2 as real * (w * x) + x * x,
{
    spread(w + x, w, x);
    spread(w, w, x);
    spread(x, w, x);
    swap(w, x);
    swap(w + x, w);
    swap(w + x, x);
}

/// The squared distance along one coordinate, by the parameter.
proof fn axis_square(w: real, v: real, u: real)
    ensures
        (w - u * v) * (w - u * v) == w * w - 2 as real * (u * (w * v)) + (u * u) * (v * v),
{
    square_of_difference(w, u * v);
    swap(w, u * v);
    regroup(u, v, w);
    swap(v, w);
    regroup(u * v, u, v);
    swap(u * v, u);
    regroup(u, u, v);
    regroup(u * u, v, v);
    assert((u * v) * (u * v) == (u * u) * (v * v));
    assert(w * (u * v) == u * (w * v));
}

/// How much a parabola gains away from its parameter `t`.
proof fn gain(u: real, t: real, len: real, d: real)
    ensures
        ((u * u) * len - 2 as real * (u * d)) - ((t * t) * len - 2 as real * (t * d)) == ((u - t)
            * (u - t)) * len + 2 as real * ((u - t) * (t * len - d)),
{
    square_of_difference(u, t);
    let sq = u * u - 2 as real * (u * t) + t * t;
    spread(len, u * u - 2 as real * (u * t), t * t);
    spread(len, u * u, 2 as real * (u * t));
    swap(len, sq);
    swap(len, u * u);
    swap(len, t * t);
    swap(len, 2 as real * (u * t));
    regroup(2 as real, u * t, len);
    assert(sq * len == (u * u) * len - 2 as real * ((u * t) * len) + (t * t) * len);
    spread(t * len - d, u, t);
    swap(t * len - d, u);
    swap(t * len - d, t);
    spread(u, t * len, d);
    spread(t, t * len, d);
    regroup(u, t, len);
    regroup(t, t, len);
    swap(t * len - d, u - t);
}

/// The squared distance of a point from a segment, by the parameter.
proof fn distance_by_parameter(p: Point, a: Point, b: Point, u: real)
    ensures
        ({
            let (vx, vy) = ((b.x - a.x) as real, (b.y - a.y) as real);
            let (wx, wy) = ((p.x - a.x) as real, (p.y - a.y) as real);
            off2(p, a, b, u) == (wx * wx + wy * wy) - 2 as real * (u * (wx * vx + wy * vy)) + (u
                * u) * (vx * vx + vy * vy)
        }),
{
    let (vx, vy) = ((b.x - a.x) as real, (b.y - a.y) as real);
    let (wx, wy) = ((p.x - a.x) as real, (p.y - a.y) as real);
    axis_square(wx, vx, u);
    axis_square(wy, vy, u);
    spread(u, wx * vx, wy * vy);
    spread(u * u, vx * vx, vy * vy);
}

/// The parameter held to the segment lies on the side that the projection is not.
proof fn held_side(u: real, t: real, len: real, d: real)
    requires
        len > 0 as real,
        t * len == held_to(d, len),
        fraction(u),
    ensures
        (u - t) * (t * len - d) >= 0 as real,
        fraction(t),
{
    let top = t * len;
    if t < 0 as real {
        assert(t * len < 0 as real) by (nonlinear_arith)
            requires
                t < 0 as real,
                len > 0 as real,
        ;
    }
    if t > 1 as real {
        assert(t * len > len) by (nonlinear_arith)
            requires
                t > 1 as real,
                len > 0 as real,
        ;
    }
    let (x, y) = (u - t, top - d);
    if d < 0 as real {
        if t > 0 as real {
            assert(t * len > 0 as real) by (nonlinear_arith)
                requires
                    t > 0 as real,
                    len > 0 as real,
            ;
        }
        grow(0 as real, x, y);
        assert(0 as real * y == 0 as real) by (nonlinear_arith);
    } else if d > len {
        if t < 1 as real {
            assert(t * len < len) by (nonlinear_arith)
                requires
                    t < 1 as real,
                    len > 0 as real,
            ;
        }
        assert(x * y >= 0 as real) by (nonlinear_arith)
            requires
                x <= 0 as real,
                y <= 0 as real,
        ;
    } else {
        assert(y == 0 as real);
        assert(x * y == 0 as real) by (nonlinear_arith)
            requires
                y == 0 as real,
        ;
    }
}

/// The projection held to the segment is the nearest point.
proof fn projection_is_nearest(p: Point, a: Point, b: Point, t: real)
    requires
        ({
            let (vx, vy) = ((b.x - a.x) as real, (b.y - a.y) as real);
            let (wx, wy) = ((p.x - a.x) as real, (p.y - a.y) as real);
            let len = vx * vx + vy * vy;
            len > 0 as real && t * len == held_to(wx * vx + wy * vy, len)
        }),
    ensures
        nearest_at(p, a, b, t),
{
    let (vx, vy) = ((b.x - a.x) as real, (b.y - a.y) as real);
    let (wx, wy) = ((p.x - a.x) as real, (p.y - a.y) as real);
    let (len, d) = (vx * vx + vy * vy, wx * vx + wy * vy);
    held_side(0 as real, t, len, d);
    assert forall|u: real| fraction(u) implies off2(p, a, b, t) <= #[trigger] off2(p, a, b, u) by {
        distance_by_parameter(p, a, b, u);
        distance_by_parameter(p, a, b, t);
        gain(u, t, len, d);
        held_side(u, t, len, d);
        square(u - t);
        grow(0 as real, (u - t) * (u - t), len);
        assert(0 as real * len == 0 as real) by (nonlinear_arith);
    }
}

/// The exact distance of a point from a segment is that from its nearest point: the squared
/// distance there, times the divisor of the fraction, is the dividend.
pub proof fn distance_is_exact(p: Point, a: Point, b: Point) -> (t: real)
    ensures
        nearest_at(p, a, b, t),
        seg::dist2(p, a, b).1 > 0,
        off2(p, a, b, t) * (seg::dist2(p, a, b).1 as real) == seg::dist2(p, a, b).0 as real,
{
    let (ix, iy) = (b.x - a.x, b.y - a.y);
    let (jx, jy) = (p.x - a.x, p.y - a.y);
    let (vx, vy) = (ix as real, iy as real);
    let (wx, wy) = (jx as real, jy as real);
    precision::int_product(ix, ix);
    precision::int_product(iy, iy);
    precision::int_product(jx, jx);
    precision::int_product(jy, jy);
    precision::int_product(jx, ix);
    precision::int_product(jy, iy);
    let (len, d, ww) = (vx * vx + vy * vy, wx * vx + wy * vy, wx * wx + wy * wy);
    let (den, num) = (seg::norm2(ix, iy), jx * ix + jy * iy);
    assert(len == den as real && d == num as real && ww == seg::norm2(jx, jy) as real);
    if a == b {
        assert forall|u: real| #[trigger] off2(p, a, b, u) == off2(p, a, b, 0 as real) by {
            assert(u * (0 as real) == 0 as real) by (nonlinear_arith);
            assert((0 as real) * (0 as real) == 0 as real) by (nonlinear_arith);
        }
        assert((0 as real) * (0 as real) == 0 as real) by (nonlinear_arith);
        assert(den == 0) by (nonlinear_arith)
            requires
                den == ix * ix + iy * iy,
                ix == 0,
                iy == 0,
        ;
        assert(off2(p, a, b, 0 as real) == ww);
        assert(ww * (1 as real) == ww) by (nonlinear_arith);
        0 as real
    } else {
        assert(den > 0) by (nonlinear_arith)
            requires
                den == ix * ix + iy * iy,
                ix != 0 || iy != 0,
        ;
        let top = held_to(d, len);
        let t = top / len;
        assert(t * len == top) by (nonlinear_arith)
            requires
                t == top / len,
                len > 0 as real,
        ;
        projection_is_nearest(p, a, b, t);
        distance_by_parameter(p, a, b, t);
        let off = off2(p, a, b, t);
        assert(off == ww - 2 as real * (t * d) + (t * t) * len);
        assert(off * (1 as real) == off) by (nonlinear_arith);
        regroup(t, t, len);
        if num <= 0 {
            assert(t == 0 as real) by (nonlinear_arith)
                requires
                    t * len == 0 as real,
                    len > 0 as real,
            ;
            assert(t * d == 0 as real && t * top == 0 as real) by (nonlinear_arith)
                requires
                    t == 0 as real,
            ;
        } else if num >= den {
            assert(t == 1 as real) by (nonlinear_arith)
                requires
                    t * len == len,
                    len > 0 as real,
            ;
            assert(t * d == d && t * top == top) by (nonlinear_arith)
                requires
                    t == 1 as real,
            ;
            let (kx, ky) = (p.x - b.x, p.y - b.y);
            precision::int_product(kx, kx);
            precision::int_product(ky, ky);
            square_of_difference(wx, vx);
            square_of_difference(wy, vy);
            assert(kx as real == wx - vx && ky as real == wy - vy);
        } else {
            assert(top == d);
            spread(len, ww, t * d);
            swap(len, ww);
            regroup(len, t, d);
            swap(len, t);
            swap(len, ww - t * d);
            assert(off == ww - t * d);
            assert(off * len == ww * len - d * d);
            precision::int_product(seg::norm2(jx, jy), den);
            precision::int_product(num, num);
        }
        t
    }
}

/// A detour by way of a point at most one away is at most one longer.
proof fn detour(gx: real, gy: real, hx: real, hy: real, d: real)
    requires
        gx * gx + gy * gy <= d * d,
        hx * hx + hy * hy <= 1 as real,
        d >= 0 as real,
    ensures
        (gx + hx) * (gx + hx) + (gy + hy) * (gy + hy) <= (d + 1 as real) * (d + 1 as real),
{
    let h = hx * hx + hy * hy;
    let (cx, cy) = (gx * hx, gy * hy);
    let c = cx + cy;
    axis_square(gx, hx, d);
    axis_square(gy, hy, d);
    square(gx - d * hx);
    square(gy - d * hy);
    square(gx);
    square(gy);
    square(d);
    spread(d, cx, cy);
    spread(d * d, hx * hx, hy * hy);
    grow(h, 1 as real, d * d);
    assert((d * d) * (1 as real) == d * d) by (nonlinear_arith);
    assert(d * c <= d * d);
    if d > 0 as real {
        assert(c <= d) by (nonlinear_arith)
            requires
                d * c <= d * d,
                d > 0 as real,
        ;
    } else {
        assert(d * d == 0 as real) by (nonlinear_arith)
            requires
                d == 0 as real,
        ;
        assert(gx == 0 as real) by (nonlinear_arith)
            requires
                gx * gx <= 0 as real,
        ;
        assert(gy == 0 as real) by (nonlinear_arith)
            requires
                gy * gy <= 0 as real,
        ;
        assert(cx == 0 as real) by (nonlinear_arith)
            requires
                cx == gx * hx,
                gx == 0 as real,
        ;
        assert(cy == 0 as real) by (nonlinear_arith)
            requires
                cy == gy * hy,
                gy == 0 as real,
        ;
    }
    square_of_sum(gx, hx);
    square_of_sum(gy, hy);
    square_of_sum(d, 1 as real);
    assert(d * (1 as real) == d && (1 as real) * (1 as real) == 1 as real) by (nonlinear_arith);
}

// ---------------------------------------------------------------------------
// The foot.
// ---------------------------------------------------------------------------

/// The longer side of the box of a segment.
spec fn longer_side(a: Point, b: Point) -> real {
    let (x, y) = (size((b.x - a.x) as real), size((b.y - a.y) as real));
    if x >= y {
        x
    } else {
        y
    }
}

/// The squared length of a segment.
spec fn length2(a: Point, b: Point) -> real {
    let (vx, vy) = ((b.x - a.x) as real, (b.y - a.y) as real);
    vx * vx + vy * vy
}

/// The squared length times the parameter of the projection of `p`.
spec fn along(p: Point, a: Point, b: Point) -> real {
    (p.x - a.x) as real * ((b.x - a.x) as real) + (p.y - a.y) as real * ((b.y - a.y) as real)
}

proof fn side_and_length(a: Point, b: Point)
    requires
        a != b,
    ensures
        longer_side(a, b) * longer_side(a, b) <= length2(a, b),
        1 as real <= longer_side(a, b),
        length2(a, b) > 0 as real,
{
    let (vx, vy) = ((b.x - a.x) as real, (b.y - a.y) as real);
    let m = longer_side(a, b);
    size_of_product(vx, vx);
    size_of_product(vy, vy);
    square(vx);
    square(vy);
    assert(a.x != b.x || a.y != b.y);
    assert(1 as real <= m);
    assert(m * m >= 1 as real) by (nonlinear_arith)
        requires
            m >= 1 as real,
    ;
}

proof fn product_bound(w: real, v: real, m: real)
    requires
        size(w) <= 2_000_000_000_000 as real,
        size(v) <= m,
    ensures
        size(w * v) <= 2_000_000_000_000 as real * m,
{
    size_of_product(w, v);
    grow(size(w), 2_000_000_000_000 as real, size(v));
    grow(size(v), m, 2_000_000_000_000 as real);
}

/// The parameter of the foot is near that of the exact projection.
proof fn projection_error(p: Point, a: Point, b: Point)
    requires
        limits::pt_round(p),
        limits::pt_round(a),
        limits::pt_round(b),
        a != b,
    ensures
        ({
            let vx = binary64::of_int(b.x - a.x);
            let vy = binary64::of_int(b.y - a.y);
            let len2 = path::sum_squares(vx, vy);
            let t = closest::projection(p, a, vx, vy, len2);
            let len = length2(a, b);
            &&& len2.mant != 0
            &&& precision::fits(t, 649)
            &&& fraction(value(t))
            &&& size(value(t) * len - held_to(along(p, a, b), len)) * (9_007_199_254_740_992
                as real) <= 64_000_000_000_000 as real * longer_side(a, b)
        }),
{
    let (vx, vy) = (binary64::of_int(b.x - a.x), binary64::of_int(b.y - a.y));
    let (wx, wy) = (binary64::of_int(p.x - a.x), binary64::of_int(p.y - a.y));
    precision::int_is_kept(b.x - a.x);
    precision::int_is_kept(b.y - a.y);
    precision::int_is_kept(p.x - a.x);
    precision::int_is_kept(p.y - a.y);
    let (x, y) = (binary64::product(wx, vx), binary64::product(wy, vy));
    precision::product_is_near(wx, vx, 53, 53);
    precision::product_is_near(wy, vy, 53, 53);
    let dot = binary64::sum(x, y);
    precision::sum_is_near(x, y, 212);
    let (xx, yy) = (binary64::product(vx, vx), binary64::product(vy, vy));
    precision::product_is_near(vx, vx, 53, 53);
    precision::product_is_near(vy, vy, 53, 53);
    let l = path::sum_squares(vx, vy);
    precision::sum_is_near(xx, yy, 212);
    let m = longer_side(a, b);
    let g = 2_000_000_000_000 as real * m;
    side_and_length(a, b);
    product_bound(value(wx), value(vx), m);
    product_bound(value(wy), value(vy), m);
    let (p1, p2) = (value(wx) * value(vx), value(wy) * value(vy));
    let (q1, q2) = (value(vx) * value(vx), value(vy) * value(vy));
    square(value(vx));
    square(value(vy));
    sum_error(p1, p2, value(x), value(y), value(dot), g);
    length_error(q1, q2, value(xx), value(yy), value(l));
    if l.mant == 0 {
        precision::value_of_zero(l);
    }
    let t0 = binary64::quotient(dot, l);
    precision::quotient_is_near(dot, l, 266, 266);
    parameter_error(p1 + p2, value(dot), q1 + q2, value(l), value(t0), g);
    let one = binary64::of_int(1);
    let zero = binary64::zero();
    precision::int_is_kept(1);
    precision::value_of_zero(zero);
    precision::below_is_less(t0, zero);
    precision::below_is_less(one, t0);
    let t = closest::projection(p, a, vx, vy, l);
    assert(value(t) == held_to(value(t0), 1 as real));
    held_error(value(t0), value(t), q1 + q2, p1 + p2);
}

/// A coordinate of the foot is within little more than a half of its exact place.
proof fn coordinate_error(t: Real, a: int, v: int)
    requires
        precision::fits(t, 649),
        fraction(value(t)),
        -1_000_000_000_000 <= a <= 1_000_000_000_000,
        -2_000_000_000_000 <= v <= 2_000_000_000_000,
    ensures
        size(
            binary64::nearest(
                binary64::sum(binary64::of_int(a), binary64::product(t, binary64::of_int(v))),
            ) as real - a as real - value(t) * (v as real),
        ) * (10_000 as real) <= 5_010 as real,
{
    let (ra, rv) = (binary64::of_int(a), binary64::of_int(v));
    precision::int_is_kept(a);
    precision::int_is_kept(v);
    let z = binary64::product(t, rv);
    precision::product_is_near(t, rv, 649, 53);
    let y = binary64::sum(ra, z);
    precision::sum_is_near(ra, z, 808);
    let tv = value(t) * (v as real);
    size_of_product(value(t), v as real);
    grow(value(t), 1 as real, size(v as real));
    assert(1 as real * size(v as real) == size(v as real)) by (nonlinear_arith);
    assert(size(tv) <= 2_000_000_000_000 as real);
    rounding_error(tv, a as real, value(z), value(y), value(y));
    precision::nearest_is_near(y);
    rounding_error(tv, a as real, value(z), value(y), binary64::nearest(y) as real);
}

/// A coordinate that is off by little more than a half of the squared length.
proof fn coordinate_square(d: real, t: real, v: real, f: real, len: real, top: real)
    requires
        len > 0 as real,
        t * len == top,
        d == f - t * v,
        size(f * len - top * v) * (100 as real) <= 51 as real * len,
    ensures
        d * d * (2 as real) <= 1 as real,
{
    spread(len, f, t * v);
    swap(len, f);
    swap(len, t * v);
    regroup(t, v, len);
    swap(v, len);
    regroup(t, len, v);
    assert(d * len == f * len - top * v) by {
        swap(d, len);
    }
    size_of_product(d, len);
    let sd = size(d);
    assert(size(len) == len);
    assert(sd * (100 as real) <= 51 as real) by (nonlinear_arith)
        requires
            (sd * len) * (100 as real) <= 51 as real * len,
            len > 0 as real,
    ;
    size_of_product(d, d);
    square(d);
    assert(sd * sd * (2 as real) <= 1 as real) by (nonlinear_arith)
        requires
            sd >= 0 as real,
            sd * (100 as real) <= 51 as real,
    ;
}

proof fn foot_of_a_point(p: Point, a: Point)
    ensures
        closest::foot(p, a, a) == a,
        nearest_at(p, a, a, 0 as real),
        beside(a, (a, a), 0 as real),
{
    reveal(closest::foot);
    let zero = binary64::of_int(0);
    assert(zero.mant == 0);
    assert((0u64 * 0u64) as nat == 0);
    assert(binary64::product(zero, zero).mant == 0);
    assert forall|u: real| #[trigger] off2(p, a, a, u) == off2(p, a, a, 0 as real) by {
        assert(u * (0 as real) == 0 as real) by (nonlinear_arith);
        assert((0 as real) * (0 as real) == 0 as real) by (nonlinear_arith);
    }
    assert((0 as real) * (0 as real) == 0 as real) by (nonlinear_arith);
}

/// The parameter by which the foot is found.
spec fn parameter(p: Point, a: Point, b: Point) -> Real {
    let (vx, vy) = (binary64::of_int(b.x - a.x), binary64::of_int(b.y - a.y));
    closest::projection(p, a, vx, vy, path::sum_squares(vx, vy))
}

/// The foot lies by its parameter, but for rounding.
proof fn foot_by_parameter(p: Point, a: Point, b: Point)
    requires
        limits::pt_round(p),
        limits::pt_round(a),
        limits::pt_round(b),
        a != b,
    ensures
        ({
            let q = closest::foot(p, a, b);
            let t = value(parameter(p, a, b));
            let (vx, vy) = ((b.x - a.x) as real, (b.y - a.y) as real);
            &&& size(q.x as real - a.x as real - t * vx) * (10_000 as real) <= 5_010 as real
            &&& size(q.y as real - a.y as real - t * vy) * (10_000 as real) <= 5_010 as real
        }),
{
    reveal(closest::foot);
    projection_error(p, a, b);
    coordinate_error(parameter(p, a, b), a.x as int, b.x - a.x);
    coordinate_error(parameter(p, a, b), a.y as int, b.y - a.y);
}

/// The foot lies by the exact parameter, but for little more than a half.
proof fn foot_error(p: Point, a: Point, b: Point)
    requires
        limits::pt_round(p),
        limits::pt_round(a),
        limits::pt_round(b),
        a != b,
    ensures
        ({
            let q = closest::foot(p, a, b);
            let len = length2(a, b);
            let top = held_to(along(p, a, b), len);
            let (vx, vy) = ((b.x - a.x) as real, (b.y - a.y) as real);
            let (fx, fy) = ((q.x - a.x) as real, (q.y - a.y) as real);
            &&& size(fx * len - top * vx) * (100 as real) <= 51 as real * len
            &&& size(fy * len - top * vy) * (100 as real) <= 51 as real * len
        }),
{
    let q = closest::foot(p, a, b);
    let t = value(parameter(p, a, b));
    let len = length2(a, b);
    let top = held_to(along(p, a, b), len);
    let m = longer_side(a, b);
    let (vx, vy) = ((b.x - a.x) as real, (b.y - a.y) as real);
    foot_by_parameter(p, a, b);
    projection_error(p, a, b);
    side_and_length(a, b);
    axis_error(t, vx, len, top, a.x as real, q.x as real, m);
    axis_error(t, vy, len, top, a.y as real, q.y as real, m);
    assert((q.x - a.x) as real == q.x as real - a.x as real);
    assert((q.y - a.y) as real == q.y as real - a.y as real);
}

/// The foot is at most a nanometre away from the point of the segment that is nearest to
/// `p`.
pub proof fn foot_is_near(p: Point, a: Point, b: Point) -> (t: real)
    requires
        limits::pt_round(p),
        limits::pt_round(a),
        limits::pt_round(b),
    ensures
        nearest_at(p, a, b, t),
        beside(closest::foot(p, a, b), (a, b), t),
{
    if a == b {
        foot_of_a_point(p, a);
        0 as real
    } else {
        let q = closest::foot(p, a, b);
        let len = length2(a, b);
        let top = held_to(along(p, a, b), len);
        foot_error(p, a, b);
        side_and_length(a, b);
        let t = top / len;
        assert(t * len == top) by (nonlinear_arith)
            requires
                t == top / len,
                len > 0 as real,
        ;
        projection_is_nearest(p, a, b, t);
        let (vx, vy) = ((b.x - a.x) as real, (b.y - a.y) as real);
        let (fx, fy) = ((q.x - a.x) as real, (q.y - a.y) as real);
        coordinate_square(fx - t * vx, t, vx, fx, len, top);
        coordinate_square(fy - t * vy, t, vy, fy, len, top);
        t
    }
}

/// The distance from `p` to a point beside an edge, by way of the edge.
proof fn gap_by_way_of(p: Point, q: Point, a: Point, b: Point, t: real, d: real)
    requires
        limits::pt_round(p),
        limits::pt_round(a),
        limits::pt_round(b),
        beside(q, (a, b), t),
        reaches(p, (a, b), t, d),
    ensures
        closest::gap2(q, p) as real <= (d + 1 as real) * (d + 1 as real),
{
    let (vx, vy) = ((b.x - a.x) as real, (b.y - a.y) as real);
    let (hx, hy) = ((q.x - a.x) as real - t * vx, (q.y - a.y) as real - t * vy);
    let (kx, ky) = ((p.x - a.x) as real - t * vx, (p.y - a.y) as real - t * vy);
    let (gx, gy) = (0 as real - kx, 0 as real - ky);
    assert(gx * gx == kx * kx) by (nonlinear_arith)
        requires
            gx == 0 as real - kx,
    ;
    assert(gy * gy == ky * ky) by (nonlinear_arith)
        requires
            gy == 0 as real - ky,
    ;
    detour(gx, gy, hx, hy, d);
    square(hx);
    square(hy);
    unit_size(hx);
    unit_size(hy);
    size_of_product(t, vx);
    size_of_product(t, vy);
    grow(t, 1 as real, size(vx));
    grow(t, 1 as real, size(vy));
    assert(1 as real * size(vx) == size(vx)) by (nonlinear_arith);
    assert(1 as real * size(vy) == size(vy)) by (nonlinear_arith);
    let (dx, dy) = (q.x - p.x, q.y - p.y);
    assert(closest::held(dx) == dx && closest::held(dy) == dy);
    assert(gx + hx == dx as real && gy + hy == dy as real);
    precision::int_product(dx, dx);
    precision::int_product(dy, dy);
}

proof fn unit_size(x: real)
    requires
        x * x <= 1 as real,
    ensures
        size(x) <= 1 as real,
{
    size_of_product(x, x);
    square(x);
    let s = size(x);
    assert(s <= 1 as real) by (nonlinear_arith)
        requires
            s * s <= 1 as real,
            s >= 0 as real,
    ;
}

// ---------------------------------------------------------------------------
// Laws.
// ---------------------------------------------------------------------------

/// The nearest boundary point is at most a nanometre away from some edge.
pub proof fn closest_is_beside_an_edge(p: Point, es: Seq<(Point, Point)>, r: Point)
    requires
        es.len() > 0,
        limits::pt_round(p),
        forall|i: int| 0 <= i < es.len() ==> limits::pt_round((#[trigger] es[i]).0) && limits::pt_round(es[i].1),
        closest::is_closest(p, es, r),
    ensures
        exists|i: int, t: real| 0 <= i < es.len() && #[trigger] beside(r, es[i], t),
{
    let i = choose|i: int| #[trigger]
        closest::closest_at(p, es, i) && r == closest::foot(p, es[i].0, es[i].1);
    let t = foot_is_near(p, es[i].0, es[i].1);
    assert(beside(r, es[i], t));
}

/// No boundary point is nearer than the one found by more than a nanometre: where the disc
/// of radius `d` about `p` reaches an edge, the disc of radius `d + 1` holds the point found.
pub proof fn no_boundary_point_is_much_nearer(
    p: Point,
    es: Seq<(Point, Point)>,
    r: Point,
    j: int,
    u: real,
    d: real,
)
    requires
        0 <= j < es.len(),
        limits::pt_round(p),
        forall|i: int| 0 <= i < es.len() ==> limits::pt_round((#[trigger] es[i]).0) && limits::pt_round(es[i].1),
        closest::is_closest(p, es, r),
        reaches(p, es[j], u, d),
    ensures
        closest::gap2(r, p) as real <= (d + 1 as real) * (d + 1 as real),
{
    let i = choose|i: int| #[trigger]
        closest::closest_at(p, es, i) && r == closest::foot(p, es[i].0, es[i].1);
    let (a, b) = es[j];
    let t = foot_is_near(p, a, b);
    assert(off2(p, a, b, t) <= off2(p, a, b, u));
    gap_by_way_of(p, closest::foot(p, a, b), a, b, t, d);
    assert(closest::foot_gap(p, es, i) <= closest::foot_gap(p, es, j));
}

/// What [`shape::Shape2D::closest_boundary_point`] gives is at most a nanometre away from the
/// boundary, and no boundary point is nearer by more than that.
pub proof fn closest_boundary_point_is_near(s: ShapeV, p: Point, r: Point)
    requires
        shape::measurable(s),
        shape::edges(s).len() > 0,
        limits::pt_safe(p),
        closest::is_closest(p, shape::edges(s), r),
    ensures
        exists|i: int, t: real|
            0 <= i < shape::edges(s).len() && #[trigger] beside(r, shape::edges(s)[i], t),
        forall|j: int, u: real, d: real|
            0 <= j < shape::edges(s).len() && #[trigger] reaches(p, shape::edges(s)[j], u, d)
                ==> closest::gap2(r, p) as real <= (d + 1 as real) * (d + 1 as real),
{
    let es = shape::edges(s);
    clearance::edges_are_safe(s);
    assert forall|i: int| 0 <= i < es.len() implies limits::pt_round((#[trigger] es[i]).0) && limits::pt_round(
        es[i].1,
    ) by {
        assert(limits::pt_safe(shape::edges(s)[i].0));
    }
    closest_is_beside_an_edge(p, es, r);
    assert forall|j: int, u: real, d: real|
        0 <= j < es.len() && #[trigger] reaches(p, es[j], u, d) implies closest::gap2(
        r,
        p,
    ) as real <= (d + 1 as real) * (d + 1 as real) by {
        no_boundary_point_is_much_nearer(p, es, r, j, u, d);
    }
}

} // verus!
