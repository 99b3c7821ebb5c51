//! How near rounded turns, distances and products come to the exact ones.

use super::number;
use super::number::{Ratio, Turn};
use crate::binary64;
use crate::binary64::Real;
use crate::coord::Point;
use crate::geom::path;
use crate::precision;
use vstd::prelude::*;

verus! {

/// How far from the centre points are turned with a nanometre to spare.
pub const TURN_REACH: i64 = 0x2_0000_0000_0000;

/// A sine, a cosine or another factor of at most one.
pub open spec fn is_fraction(x: Real) -> bool {
    precision::fits(x, 1_000) && precision::size(precision::value(x)) <= 1 as real
}

proof fn small_product(n: int, x: Real)
    requires
        -TURN_REACH <= n <= TURN_REACH,
        is_fraction(x),
    ensures
        ({
            let p = binary64::product(binary64::of_int(n), x);
            let e = (n as real) * precision::value(x);
            &&& precision::fits(p, 1_159)
            &&& precision::size(precision::value(p) - e) * (16 as real) <= 1 as real
            &&& precision::size(e) <= TURN_REACH as real
        }),
{
    let v = precision::value(x);
    let r = n as real;
    precision::int_is_kept(n);
    precision::product_is_near(binary64::of_int(n), x, 53, 1_000);
    let b = TURN_REACH as real;
    assert(0 as real - b <= r * v && r * v <= b) by (nonlinear_arith)
        requires
            0 as real - b <= r,
            r <= b,
            0 as real - (1 as real) <= v,
            v <= 1 as real,
    ;
}

proof fn rounded_sum(a: Real, b: Real, x: real, y: real)
    requires
        precision::fits(a, 1_159),
        precision::fits(b, 1_159),
        precision::size(precision::value(a) - x) * (16 as real) <= 1 as real,
        precision::size(precision::value(b) - y) * (16 as real) <= 1 as real,
        precision::size(x) <= TURN_REACH as real,
        precision::size(y) <= TURN_REACH as real,
    ensures
        precision::size(binary64::nearest(binary64::sum(a, b)) as real - (x + y)) <= 1 as real,
        -0x8_0000_0000_0000 <= binary64::nearest(binary64::sum(a, b)) <= 0x8_0000_0000_0000,
{
    precision::sum_is_near(a, b, 1_159);
    precision::nearest_is_near(binary64::sum(a, b));
}

/// Turning by an angle moves a point along its circle: it lands within a nanometre of where
/// the rotation by the angle of that sine and cosine takes it.
pub proof fn turning_is_a_rotation(p: Point, c: Point, sin: Real, cos: Real)
    requires
        is_fraction(sin),
        is_fraction(cos),
        -TURN_REACH <= p.x - c.x <= TURN_REACH,
        -TURN_REACH <= p.y - c.y <= TURN_REACH,
        -0x4000_0000_0000_0000 <= c.x <= 0x4000_0000_0000_0000,
        -0x4000_0000_0000_0000 <= c.y <= 0x4000_0000_0000_0000,
    ensures
        ({
            let q = number::rotated(p, c, Turn::Other { sin, cos });
            let (dx, dy) = ((p.x - c.x) as real, (p.y - c.y) as real);
            let (s, k) = (precision::value(sin), precision::value(cos));
            &&& precision::size((q.x - c.x) as real - (dx * k - dy * s)) <= 1 as real
            &&& precision::size((q.y - c.y) as real - (dx * s + dy * k)) <= 1 as real
        }),
{
    let (nx, ny) = (p.x - c.x, p.y - c.y);
    let (s, k) = (precision::value(sin), precision::value(cos));
    let (fx, fy) = (binary64::of_int(nx), binary64::of_int(ny));
    small_product(nx, cos);
    small_product(ny, sin);
    small_product(nx, sin);
    small_product(ny, cos);
    let m = binary64::product(fy, sin);
    precision::negated_is_opposite(m);
    let (x, y) = ((nx as real) * k, (ny as real) * s);
    rounded_sum(binary64::product(fx, cos), binary64::negated(m), x, 0 as real - y);
    rounded_sum(
        binary64::product(fx, sin),
        binary64::product(fy, cos),
        (nx as real) * s,
        (ny as real) * k,
    );
}

/// A length times a factor of at most one is within a nanometre of the product.
pub proof fn scaling_is_a_product(m: int, x: Real)
    requires
        -TURN_REACH <= m <= TURN_REACH,
        is_fraction(x),
    ensures
        precision::size(
            number::scaled(m, Ratio::Finite(x)) as real - (m as real) * precision::value(x),
        ) <= 1 as real,
{
    small_product(m, x);
    precision::nearest_is_near(binary64::product(binary64::of_int(m), x));
}

proof fn square_is_near(n: int)
    requires
        -0x1_0000_0000 <= n <= 0x1_0000_0000,
    ensures
        ({
            let f = binary64::of_int(n);
            let p = binary64::product(f, f);
            &&& precision::fits(p, 212)
            &&& precision::near(precision::value(p), (n * n) as real)
            &&& 0 <= n * n <= 0x1_0000_0000_0000_0000
        }),
{
    let f = binary64::of_int(n);
    precision::int_is_kept(n);
    precision::product_is_near(f, f, 53, 53);
    precision::int_product(n, n);
    assert(0 <= n * n <= 0x1_0000_0000_0000_0000) by (nonlinear_arith)
        requires
            -0x1_0000_0000 <= n <= 0x1_0000_0000,
    ;
}

proof fn root_of_a_sum(v: real, d: int, e: int)
    requires
        v >= 0 as real,
        0 <= e <= 0x2_0000_0000_0000_0000,
        precision::size(v * v - e as real) * (9_007_199_254_740_992 as real) <= (9 as real) * (
        e as real),
        precision::size(d as real - v) * (2 as real) <= 1 as real,
    ensures
        d >= 0,
        e <= (d + 1) * (d + 1),
        d >= 1 ==> (d - 1) * (d - 1) <= e,
{
    let r = e as real;
    let m = 9_007_199_254_740_992 as real;
    let q = v * v;
    assert(r <= (2 as real) * q);
    assert(q <= (2 as real) * r);
    let big = 17_179_869_184 as real;
    assert(v <= big) by (nonlinear_arith)
        requires
            v >= 0 as real,
            v * v <= big * big,
            big > 0 as real,
    ;
    assert(q <= big * v) by (nonlinear_arith)
        requires
            q == v * v,
            v <= big,
            v >= 0 as real,
    ;
    // The square is off by at most a thousandth of the root.
    let off = precision::size(q - r);
    assert(off * m <= (18 as real) * (big * v));
    assert(off * (1_000 as real) <= v);
    let f = d as real;
    assert(f >= 0 as real - v);
    let (a, b) = ((d + 1) as real, (d - 1) as real);
    precision::int_product(d + 1, d + 1);
    precision::int_product(d - 1, d - 1);
    assert(d >= 0);
    let (h, g) = (v + (1 as real) / (2 as real), v - (1 as real) / (2 as real));
    assert(h * h == q + v + (1 as real) / (4 as real)) by (nonlinear_arith)
        requires
            h == v + (1 as real) / (2 as real),
            q == v * v,
    ;
    assert(a * a >= h * h) by (nonlinear_arith)
        requires
            a >= h,
            h >= 0 as real,
    ;
    if d >= 1 {
        assert(g * g == q - v + (1 as real) / (4 as real)) by (nonlinear_arith)
            requires
                g == v - (1 as real) / (2 as real),
                q == v * v,
        ;
        assert(b * b <= g * g) by (nonlinear_arith)
            requires
                (0 as real) <= b,
                b <= g,
        ;
    }
}

/// The rounded distance of two points is within a nanometre of their distance.
pub proof fn distance_is_the_distance(a: Point, b: Point)
    requires
        -0x1_0000_0000 <= a.x - b.x <= 0x1_0000_0000,
        -0x1_0000_0000 <= a.y - b.y <= 0x1_0000_0000,
    ensures
        ({
            let d = number::distance(a, b);
            let e = (a.x - b.x) * (a.x - b.x) + (a.y - b.y) * (a.y - b.y);
            &&& 0 <= d
            &&& e <= (d + 1) * (d + 1)
            &&& d >= 1 ==> (d - 1) * (d - 1) <= e
        }),
{
    let (nx, ny) = (a.x - b.x, a.y - b.y);
    let (fx, fy) = (binary64::of_int(nx), binary64::of_int(ny));
    let e = nx * nx + ny * ny;
    square_is_near(nx);
    square_is_near(ny);
    let (p, q) = (binary64::product(fx, fx), binary64::product(fy, fy));
    precision::sum_is_near(p, q, 212);
    let s = path::sum_squares(fx, fy);
    precision::int_is_kept(nx);
    precision::int_is_kept(ny);
    path::squares_not_negative(fx, fy);
    precision::root_is_near(s, 266);
    let v = precision::value(binary64::root(s));
    let r = e as real;
    let w = precision::value(s);
    assert(precision::size(w - r) * (9_007_199_254_740_992 as real) <= (3 as real) * r);
    assert(precision::size(v * v - r) * (9_007_199_254_740_992 as real) <= (9 as real) * r);
    assert(v * v <= 0x4_0000_0000_0000_0000 as real);
    assert(v <= 4_000_000_000_000_000_000 as real) by (nonlinear_arith)
        requires
            v * v <= 0x4_0000_0000_0000_0000 as real,
            v >= 0 as real,
    ;
    precision::nearest_is_near(binary64::root(s));
    root_of_a_sum(v, number::distance(a, b), e);
}

} // verus!
