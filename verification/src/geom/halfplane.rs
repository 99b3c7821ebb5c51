//! Points and rings on either side of a line.

use super::polygon;
use super::seg;
use crate::coord::Point;
use vstd::arithmetic::mul::*;
use vstd::prelude::*;

verus! {

/// The height of `p` over a line, times its length.
pub open spec fn height(u: int, w: int, c: int, p: Point) -> int {
    u * p.x + w * p.y + c
}

/// A multiple of a height is the height of the multiple.
pub proof fn spread_out(u: int, a: int, w: int, b: int, c: int, k: int)
    ensures
        (u * a + w * b + c) * k == u * (a * k) + w * (b * k) + c * k,
{
    lemma_mul_is_distributive_add_other_way(k, u * a + w * b, c);
    lemma_mul_is_distributive_add_other_way(k, u * a, w * b);
    lemma_mul_is_associative(u, a, k);
    lemma_mul_is_associative(w, b, k);
}

/// An edge below a line crosses the ray of a point above it exactly when the line falls
/// towards +x, given that it passes the level of the point.
pub proof fn ray_of_a_point_above(pi: Point, pj: Point, p: Point, u: int, w: int, c: int)
    requires
        height(u, w, c, pi) <= 0,
        height(u, w, c, pj) <= 0,
        height(u, w, c, p) > 0,
    ensures
        polygon::crosses_ray(pi, pj, p) == (u < 0 && (pi.y > p.y) != (pj.y > p.y)),
{
    if (pi.y > p.y) != (pj.y > p.y) {
        let dy = pj.y - pi.y;
        let (gi, gj, g) = (height(u, w, c, pi), height(u, w, c, pj), height(u, w, c, p));
        let (ax, ay, bx, by, x, y) = (
            pi.x as int,
            pi.y as int,
            pj.x as int,
            pj.y as int,
            p.x as int,
            p.y as int,
        );
        let f = (x - ax) * dy - (y - ay) * (bx - ax);
        let (k, l) = (by - y, y - ay);
        let e = ax * k + bx * l;
        spread_out(u, ax, w, ay, c, k);
        spread_out(u, bx, w, by, c, l);
        spread_out(u, x, w, y, c, dy);
        assert(ay * k + by * l == y * dy) by (nonlinear_arith)
            requires
                k == by - y,
                l == y - ay,
                dy == by - ay,
        ;
        assert(f == x * dy - e) by (nonlinear_arith)
            requires
                k == by - y,
                l == y - ay,
                dy == by - ay,
                e == ax * k + bx * l,
                f == (x - ax) * dy - (y - ay) * (bx - ax),
        ;
        lemma_mul_is_distributive_add(u, ax * k, bx * l);
        lemma_mul_is_distributive_add(w, ay * k, by * l);
        lemma_mul_is_distributive_add(c, k, l);
        lemma_mul_is_distributive_sub(u, x * dy, e);
        assert(gi * k + gj * l == g * dy - u * f);
        if dy > 0 {
            assert(gi * k <= 0 && gj * l <= 0 && g * dy > 0) by (nonlinear_arith)
                requires
                    gi <= 0,
                    gj <= 0,
                    g > 0,
                    dy > 0,
                    k >= 0,
                    l >= 0,
            ;
            assert(u * f > 0);
            assert((f < 0) == (u < 0)) by (nonlinear_arith)
                requires
                    u * f > 0,
            ;
        } else {
            assert(gi * k >= 0 && gj * l >= 0 && g * dy < 0) by (nonlinear_arith)
                requires
                    gi <= 0,
                    gj <= 0,
                    g > 0,
                    dy < 0,
                    k <= 0,
                    l <= 0,
            ;
            assert(u * f < 0);
            assert((f >= 0) == (u < 0)) by (nonlinear_arith)
                requires
                    u * f < 0,
            ;
        }
    }
}

/// The first edges of a ring below a line cross the ray of a point above it as often as they
/// change between the levels above and below it, or never.
pub proof fn crossings_of_a_point_above(
    p: Point,
    ring: Seq<Point>,
    k: nat,
    u: int,
    w: int,
    c: int,
)
    requires
        k <= ring.len(),
        forall|j: int| 0 <= j < ring.len() ==> height(u, w, c, #[trigger] ring[j]) <= 0,
        height(u, w, c, p) > 0,
    ensures
        u >= 0 ==> polygon::crossings(p, ring, k) == 0,
        u < 0 && k > 0 ==> (polygon::crossings(p, ring, k) % 2 == 1) == ((ring[k - 1].y > p.y)
            != (ring[ring.len() - 1].y > p.y)),
    decreases k,
{
    if k > 0 {
        crossings_of_a_point_above(p, ring, (k - 1) as nat, u, w, c);
        let q = polygon::prev(k - 1, ring.len() as int);
        assert(height(u, w, c, ring[k - 1]) <= 0 && height(u, w, c, ring[q]) <= 0);
        ray_of_a_point_above(ring[k - 1], ring[q], p, u, w, c);
    }
}

/// A segment between points below a line stays below it.
pub proof fn segment_stays_below(a: Point, b: Point, p: Point, u: int, w: int, c: int)
    requires
        height(u, w, c, a) <= 0,
        height(u, w, c, b) <= 0,
        seg::on_segment(a, b, p),
    ensures
        height(u, w, c, p) <= 0,
{
    let (dx, dy) = (b.x - a.x, b.y - a.y);
    let (px, py) = (p.x - a.x, p.y - a.y);
    let l = dx * dx + dy * dy;
    let t = px * dx + py * dy;
    let (ga, gb, g) = (height(u, w, c, a), height(u, w, c, b), height(u, w, c, p));
    assert(0 <= px * dx <= dx * dx) by (nonlinear_arith)
        requires
            0 <= px <= dx || dx <= px <= 0,
    ;
    assert(0 <= py * dy <= dy * dy) by (nonlinear_arith)
        requires
            0 <= py <= dy || dy <= py <= 0,
    ;
    assert(dx * py == dy * px) by {
        assert(seg::cross(a, b, p) == dx * py - dy * px);
    }
    assert(l * px == (dx * dx) * px + dy * (dy * px)) by (nonlinear_arith)
        requires
            l == dx * dx + dy * dy,
    ;
    assert(t * dx == (dx * dx) * px + dy * (dx * py)) by (nonlinear_arith)
        requires
            t == px * dx + py * dy,
    ;
    assert(l * py == dx * (dx * py) + (dy * dy) * py) by (nonlinear_arith)
        requires
            l == dx * dx + dy * dy,
    ;
    assert(t * dy == dx * (dy * px) + (dy * dy) * py) by (nonlinear_arith)
        requires
            t == px * dx + py * dy,
    ;
    lemma_mul_is_distributive_sub(u, p.x as int, a.x as int);
    lemma_mul_is_distributive_sub(w, p.y as int, a.y as int);
    lemma_mul_is_distributive_sub(u, b.x as int, a.x as int);
    lemma_mul_is_distributive_sub(w, b.y as int, a.y as int);
    assert(g == u * px + w * py + ga);
    assert(gb == u * dx + w * dy + ga);
    spread_out(u, px, w, py, ga, l);
    spread_out(u, dx, w, dy, ga, t);
    lemma_mul_is_commutative(px, l);
    lemma_mul_is_commutative(py, l);
    lemma_mul_is_commutative(dx, t);
    lemma_mul_is_commutative(dy, t);
    lemma_mul_is_distributive_sub(ga, l, t);
    assert(g * l == ga * (l - t) + gb * t);
    if l == 0 {
        assert(dx == 0 && dy == 0) by (nonlinear_arith)
            requires
                dx * dx + dy * dy == 0,
        ;
    } else {
        assert(ga * (l - t) <= 0 && gb * t <= 0) by (nonlinear_arith)
            requires
                0 <= t <= l,
                ga <= 0,
                gb <= 0,
        ;
        assert(l >= 0) by (nonlinear_arith)
            requires
                l == dx * dx + dy * dy,
        ;
        assert(g <= 0) by (nonlinear_arith)
            requires
                g * l <= 0,
                l > 0,
        ;
    }
}

/// A point above a line is neither on nor within a ring that stays below it.
pub proof fn above_the_ring(p: Point, ring: Seq<Point>, u: int, w: int, c: int)
    requires
        forall|j: int| 0 <= j < ring.len() ==> height(u, w, c, #[trigger] ring[j]) <= 0,
        height(u, w, c, p) > 0,
    ensures
        !polygon::on_boundary(p, ring),
        !polygon::odd_crossings(p, ring),
{
    crossings_of_a_point_above(p, ring, ring.len(), u, w, c);
    if polygon::on_boundary(p, ring) {
        let n = ring.len() as int;
        let i = choose|i: int|
            0 <= i < ring.len() && #[trigger] seg::on_segment(
                ring[i],
                ring[polygon::next(i, n)],
                p,
            );
        assert(height(u, w, c, ring[i]) <= 0);
        assert(height(u, w, c, ring[polygon::next(i, n)]) <= 0);
        segment_stays_below(ring[i], ring[polygon::next(i, n)], p, u, w, c);
    }
}

/// A point above a line is neither on nor within rings that stay below it.
pub proof fn above_all_rings(p: Point, rings: Seq<Seq<Point>>, k: nat, u: int, w: int, c: int)
    requires
        k <= rings.len(),
        forall|i: int, j: int|
            0 <= i < rings.len() && 0 <= j < rings[i].len() ==> height(
                u,
                w,
                c,
                #[trigger] rings[i][j],
            ) <= 0,
        height(u, w, c, p) > 0,
    ensures
        polygon::enclosing(p, rings, k) == 0,
        forall|i: int| 0 <= i < k ==> !polygon::on_boundary(p, #[trigger] rings[i]),
    decreases k,
{
    if k > 0 {
        above_all_rings(p, rings, (k - 1) as nat, u, w, c);
        above_the_ring(p, rings[k - 1], u, w, c);
    }
}

/// Points on one line turn neither way.
pub proof fn collinear(a: Point, b: Point, p: Point, q: Point, s: Point)
    requires
        a != b,
        seg::cross(a, b, p) == 0,
        seg::cross(a, b, q) == 0,
        seg::cross(a, b, s) == 0,
    ensures
        seg::cross(p, q, s) == 0,
{
    let (dx, dy) = (b.x - a.x, b.y - a.y);
    let (px, py) = (p.x - a.x, p.y - a.y);
    let (qx, qy) = (q.x - a.x, q.y - a.y);
    let (sx, sy) = (s.x - a.x, s.y - a.y);
    let z = (qx - px) * (sy - py) - (qy - py) * (sx - px);
    assert(seg::cross(p, q, s) == z);
    let (ax, ay, bx, by) = (qx - px, qy - py, sx - px, sy - py);
    lemma_mul_is_distributive_sub(dx, qy, py);
    lemma_mul_is_distributive_sub(dx, sy, py);
    lemma_mul_is_distributive_sub(dy, qx, px);
    lemma_mul_is_distributive_sub(dy, sx, px);
    assert(dx * ay == dy * ax && dx * by == dy * bx);
    assert(dx * z == ax * (dx * by) - (dx * ay) * bx) by (nonlinear_arith)
        requires
            z == ax * by - ay * bx,
    ;
    assert(ax * (dy * bx) == (dy * ax) * bx) by (nonlinear_arith);
    assert(dy * z == (dy * ax) * by - ay * (dy * bx)) by (nonlinear_arith)
        requires
            z == ax * by - ay * bx,
    ;
    assert((dx * ay) * by == ay * (dx * by)) by (nonlinear_arith);
    assert(z == 0) by (nonlinear_arith)
        requires
            dx * z == 0,
            dy * z == 0,
            dx != 0 || dy != 0,
    ;
}

} // verus!
