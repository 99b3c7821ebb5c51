//! What a turn does to a point, beyond the quarter turns.

use crate::coord;
use crate::coord::{Orient, Point};
use vstd::arithmetic::div_mod::*;
use vstd::prelude::*;

verus! {

/// A rounded quotient is off by at most a half.
pub proof fn rounding_is_nearest(num: int, den: int)
    requires
        den > 0,
    ensures
        -den <= 2 * (num - coord::rounded_div(num, den) * den) <= den,
{
    let m = if num >= 0 {
        num
    } else {
        -num
    };
    lemma_fundamental_div_mod(m, den);
    let (q, r) = (m / den, m % den);
    assert(den * q == q * den) by (nonlinear_arith);
    assert((q + 1) * den == q * den + den) by (nonlinear_arith);
    assert((-q) * den == -(q * den)) by (nonlinear_arith);
    assert((-q - 1) * den == -(q * den) - den) by (nonlinear_arith);
}

proof fn turn_along(w: int, z: int, k: int)
    ensures
        (w * w - z * z) * (k * w) + (-(2 * (w * z))) * (-(k * z)) == (k * w) * (w * w + z * z),
        (2 * (w * z)) * (k * w) + (w * w - z * z) * (-(k * z)) == (k * z) * (w * w + z * z),
        (w * w - z * z) * (k * z) + (-(2 * (w * z))) * (k * w) == (-(k * z)) * (w * w + z * z),
        (2 * (w * z)) * (k * z) + (w * w - z * z) * (k * w) == (k * w) * (w * w + z * z),
{
    let (a, b, c) = (w * w, z * z, w * z);
    let (u, v) = (k * w, k * z);
    // b·u = c·v and a·v = c·u, so every product is one of four.
    assert(b * u == c * v) by (nonlinear_arith)
        requires
            b == z * z,
            c == w * z,
            u == k * w,
            v == k * z,
    ;
    assert(a * v == c * u) by (nonlinear_arith)
        requires
            a == w * w,
            c == w * z,
            u == k * w,
            v == k * z,
    ;
    assert((a - b) * u == a * u - b * u) by (nonlinear_arith);
    assert((a - b) * v == a * v - b * v) by (nonlinear_arith);
    assert((a - b) * (-v) == -(a * v) + b * v) by (nonlinear_arith);
    assert((-(2 * c)) * (-v) == 2 * (c * v)) by (nonlinear_arith);
    assert((-(2 * c)) * u == -(2 * (c * u))) by (nonlinear_arith);
    assert((2 * c) * u == 2 * (c * u)) by (nonlinear_arith);
    assert((2 * c) * v == 2 * (c * v)) by (nonlinear_arith);
    assert(u * (a + b) == a * u + b * u) by (nonlinear_arith);
    assert(v * (a + b) == a * v + b * v) by (nonlinear_arith);
    assert((-v) * (a + b) == -(a * v) - b * v) by (nonlinear_arith);
}

/// An orientation in the plane turns by twice the angle of `(w, z)`: the point across the x
/// axis from a multiple of `(w, z)` lands on that multiple, and the one a quarter turn ahead
/// of it lands a quarter turn ahead.
pub proof fn a_turn_is_twice_its_angle(o: Orient, k: int, p: Point, q: Point)
    requires
        o.x == 0,
        o.y == 0,
        coord::quat_norm(o) != 0,
        p.x == k * o.w,
        p.y == -(k * o.z),
        q.x == k * o.z,
        q.y == k * o.w,
        k * o.z <= i64::MAX,
        -(k * o.z) <= i64::MAX,
    ensures
        coord::turned(o, p).x == k * o.w,
        coord::turned(o, p).y == k * o.z,
        coord::turned(o, q).x == -(k * o.z),
        coord::turned(o, q).y == k * o.w,
{
    let (w, z) = (o.w as int, o.z as int);
    let n = w * w + z * z;
    coord::square_nonneg(w);
    coord::square_nonneg(z);
    assert(0 * 0 == 0);
    assert(coord::quat_norm(o) == n);
    turn_along(w, z, k);
    coord::exact_quotient(k * w, n);
    coord::exact_quotient(k * z, n);
    coord::exact_quotient(-(k * z), n);
}

/// An orientation about an axis in the plane turns the board over about that axis: a point
/// on the axis stays, and one across it lands on the other side.
pub proof fn turning_about_an_axis_mirrors(o: Orient, k: int, p: Point, q: Point)
    requires
        o.w == 0,
        o.z == 0,
        coord::quat_norm(o) != 0,
        p.x == k * o.x,
        p.y == k * o.y,
        q.x == -(k * o.y),
        q.y == k * o.x,
        -(k * o.x) <= i64::MAX,
        k * o.y <= i64::MAX,
    ensures
        coord::turned(o, p) == p,
        coord::turned(o, q).x == k * o.y,
        coord::turned(o, q).y == -(k * o.x),
{
    let (x, y) = (o.x as int, o.y as int);
    let n = x * x + y * y;
    coord::square_nonneg(x);
    coord::square_nonneg(y);
    assert(0 * 0 == 0);
    assert(coord::quat_norm(o) == n);
    turn_along(x, y, k);
    let (u, v) = (k * x, k * y);
    let (d, c) = (x * x - y * y, 2 * (x * y));
    assert(c * v == (-c) * (-v)) by (nonlinear_arith);
    assert((-d) * v == d * (-v)) by (nonlinear_arith);
    assert(d * (-v) + c * u == -(d * v + (-c) * u)) by (nonlinear_arith);
    assert(c * (-v) + (-d) * u == -(c * v + d * u)) by (nonlinear_arith);
    assert((-v) * n == -(v * n)) by (nonlinear_arith);
    assert((-u) * n == -(u * n)) by (nonlinear_arith);
    assert(y * y - x * x == -d);
    coord::exact_quotient(u, n);
    coord::exact_quotient(v, n);
    coord::exact_quotient(-u, n);
}

/// Turning a sum of two offsets is turning each, up to the rounding of a nanometre.
pub proof fn turns_add_up(o: Orient, a: Point, b: Point, c: Point)
    requires
        -0x0fff_ffff_ffff_ffff <= a.x <= 0x0fff_ffff_ffff_ffff,
        -0x0fff_ffff_ffff_ffff <= a.y <= 0x0fff_ffff_ffff_ffff,
        -0x0fff_ffff_ffff_ffff <= b.x <= 0x0fff_ffff_ffff_ffff,
        -0x0fff_ffff_ffff_ffff <= b.y <= 0x0fff_ffff_ffff_ffff,
        c.x == a.x + b.x,
        c.y == a.y + b.y,
    ensures
        -1 <= coord::turned(o, c).x - coord::turned(o, a).x - coord::turned(o, b).x <= 1,
        -1 <= coord::turned(o, c).y - coord::turned(o, a).y - coord::turned(o, b).y <= 1,
{
    let n = coord::quat_norm(o);
    if n != 0 {
        let xx = o.w * o.w + o.x * o.x - o.y * o.y - o.z * o.z;
        let xy = 2 * (o.x * o.y - o.w * o.z);
        let yx = 2 * (o.x * o.y + o.w * o.z);
        let yy = o.w * o.w - o.x * o.x + o.y * o.y - o.z * o.z;
        coord::entries_bounded(o);
        row_adds_up(xx, xy, n, a, b, c);
        row_adds_up(yx, yy, n, a, b, c);
    }
}

proof fn row_adds_up(s: int, t: int, n: int, a: Point, b: Point, c: Point)
    requires
        0 < n <= 0x1_0000_0000_0000_0000,
        -n <= s <= n,
        -n <= t <= n,
        -0x0fff_ffff_ffff_ffff <= a.x <= 0x0fff_ffff_ffff_ffff,
        -0x0fff_ffff_ffff_ffff <= a.y <= 0x0fff_ffff_ffff_ffff,
        -0x0fff_ffff_ffff_ffff <= b.x <= 0x0fff_ffff_ffff_ffff,
        -0x0fff_ffff_ffff_ffff <= b.y <= 0x0fff_ffff_ffff_ffff,
        c.x == a.x + b.x,
        c.y == a.y + b.y,
    ensures
        ({
            let (ra, rb, rc) = (
                coord::rounded_div(s * a.x + t * a.y, n),
                coord::rounded_div(s * b.x + t * b.y, n),
                coord::rounded_div(s * c.x + t * c.y, n),
            );
            &&& -1 <= rc - ra - rb <= 1
            &&& i64::MIN <= ra <= i64::MAX
            &&& i64::MIN <= rb <= i64::MAX
            &&& i64::MIN <= rc <= i64::MAX
        }),
{
    coord::dot_bound(s, t, a.x as int, a.y as int, n);
    coord::dot_bound(s, t, b.x as int, b.y as int, n);
    coord::dot_bound(s, t, c.x as int, c.y as int, n);
    let (na, nb, nc) = (s * a.x + t * a.y, s * b.x + t * b.y, s * c.x + t * c.y);
    let m = 0x3fff_ffff_ffff_ffffint;
    assert(n * (2 * m) == 2 * (n * m)) by (nonlinear_arith);
    coord::rounded_within(na, n, 2 * m);
    coord::rounded_within(nb, n, 2 * m);
    coord::rounded_within(nc, n, 2 * m);
    let (ax, ay, bx, by) = (a.x as int, a.y as int, b.x as int, b.y as int);
    assert(s * (ax + bx) == s * ax + s * bx) by (nonlinear_arith);
    assert(t * (ay + by) == t * ay + t * by) by (nonlinear_arith);
    assert(nc == na + nb);
    rounding_is_nearest(na, n);
    rounding_is_nearest(nb, n);
    rounding_is_nearest(nc, n);
    let (ra, rb, rc) = (coord::rounded_div(na, n), coord::rounded_div(nb, n), coord::rounded_div(nc, n));
    let d = rc - ra - rb;
    assert(d * n == rc * n - ra * n - rb * n) by (nonlinear_arith)
        requires
            d == rc - ra - rb,
    ;
    assert(-1 <= d <= 1) by (nonlinear_arith)
        requires
            n > 0,
            -3 * n <= 2 * (d * n) <= 3 * n,
    ;
}

} // verus!
