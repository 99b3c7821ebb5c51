//! Which points a polygon holds: those of the triangles that it falls into.

use super::halfplane;
use super::polygon;
use super::seg;
use crate::coord::Point;
use vstd::arithmetic::mul::*;
use vstd::prelude::*;

verus! {

/// The ring of three corners.
pub open spec fn triangle(a: Point, b: Point, c: Point) -> Seq<Point> {
    seq![a, b, c]
}

/// The point is strictly inside the triangle: on the same side of all three edges.
pub open spec fn strictly_inside(p: Point, a: Point, b: Point, c: Point) -> bool {
    ||| seg::cross(a, b, p) > 0 && seg::cross(b, c, p) > 0 && seg::cross(c, a, p) > 0
    ||| seg::cross(a, b, p) < 0 && seg::cross(b, c, p) < 0 && seg::cross(c, a, p) < 0
}

// ---------------------------------------------------------------------------
// One edge.
// ---------------------------------------------------------------------------

/// An edge crosses the ray of a point when it passes the point's level on the side of the ray:
/// upwards with the point to its left, or downwards with the point to its right.
proof fn crossing_by_side(a: Point, b: Point, p: Point)
    ensures
        polygon::crosses_ray(b, a, p) == ((a.y <= p.y && b.y > p.y && seg::cross(a, b, p) >= 0)
            || (a.y > p.y && b.y <= p.y && seg::cross(a, b, p) < 0)),
{
    // With `d` from `b` to `a`, the test compares `(p − b) × d`.
    let (dx, dy) = (a.x - b.x, a.y - b.y);
    let (wx, wy) = (p.x - b.x, p.y - b.y);
    let l = wx * dy - wy * dx;
    assert(seg::cross(a, b, p) == l) by {
        let (ux, uy) = (b.x - a.x, b.y - a.y);
        let (vx, vy) = (p.x - a.x, p.y - a.y);
        assert(ux == -dx && uy == -dy && vx == wx - dx && vy == wy - dy);
        assert((-dx) * (wy - dy) - (-dy) * (wx - dx) == wx * dy - wy * dx) by (nonlinear_arith);
    }
}

/// Which way an edge runs makes no difference for a point that is not on it.
proof fn crossing_is_symmetric(a: Point, b: Point, p: Point)
    requires
        !seg::on_segment(a, b, p),
    ensures
        polygon::crosses_ray(a, b, p) == polygon::crosses_ray(b, a, p),
{
    crossing_by_side(a, b, p);
    crossing_by_side(b, a, p);
    opposite_side(a, b, p);
    if seg::cross(a, b, p) == 0 && (a.y > p.y) != (b.y > p.y) {
        level_point_is_on(a, b, p);
    }
}

proof fn opposite_side(a: Point, b: Point, p: Point)
    ensures
        seg::cross(b, a, p) == -seg::cross(a, b, p),
{
    let (dx, dy) = (b.x - a.x, b.y - a.y);
    let (wx, wy) = (p.x - a.x, p.y - a.y);
    assert((-dx) * (wy - dy) - (-dy) * (wx - dx) == -(dx * wy - dy * wx)) by (nonlinear_arith);
    assert(a.x - b.x == -dx && a.y - b.y == -dy && p.x - b.x == wx - dx && p.y - b.y == wy - dy);
}

/// A point of an edge's line at a level between its ends is on the edge.
proof fn level_point_is_on(a: Point, b: Point, p: Point)
    requires
        seg::cross(a, b, p) == 0,
        (a.y > p.y) != (b.y > p.y),
    ensures
        seg::on_segment(a, b, p),
{
    let (dx, dy) = (b.x - a.x, b.y - a.y);
    let (wx, wy) = (p.x - a.x, p.y - a.y);
    assert(dx * wy == dy * wx);
    if dy > 0 {
        assert(0 <= wy <= dy);
        if dx >= 0 {
            assert(0 <= wx <= dx) by (nonlinear_arith)
                requires
                    dx * wy == dy * wx,
                    0 <= wy <= dy,
                    dy > 0,
                    dx >= 0,
            ;
        } else {
            assert(dx <= wx <= 0) by (nonlinear_arith)
                requires
                    dx * wy == dy * wx,
                    0 <= wy <= dy,
                    dy > 0,
                    dx < 0,
            ;
        }
    } else {
        assert(dy <= wy <= 0 && dy < 0);
        if dx >= 0 {
            assert(0 <= wx <= dx) by (nonlinear_arith)
                requires
                    dx * wy == dy * wx,
                    dy <= wy <= 0,
                    dy < 0,
                    dx >= 0,
            ;
        } else {
            assert(dx <= wx <= 0) by (nonlinear_arith)
                requires
                    dx * wy == dy * wx,
                    dy <= wy <= 0,
                    dy < 0,
                    dx < 0,
            ;
        }
    }
}

// ---------------------------------------------------------------------------
// Triangles.
// ---------------------------------------------------------------------------

proof fn triangle_crossings(a: Point, b: Point, c: Point, p: Point)
    ensures
        polygon::crossings(p, triangle(a, b, c), 3) == (if polygon::crosses_ray(a, c, p) {
            1int
        } else {
            0
        }) + (if polygon::crosses_ray(b, a, p) {
            1int
        } else {
            0
        }) + (if polygon::crosses_ray(c, b, p) {
            1int
        } else {
            0
        }),
{
    let t = triangle(a, b, c);
    reveal_with_fuel(polygon::crossings, 4);
    assert(t[0] == a && t[1] == b && t[2] == c);
}

/// A point strictly inside a triangle is neither above all its corners nor below them.
proof fn inside_is_between_levels(a: Point, b: Point, c: Point, p: Point)
    requires
        strictly_inside(p, a, b, c),
    ensures
        a.y > p.y || b.y > p.y || c.y > p.y,
        a.y < p.y || b.y < p.y || c.y < p.y,
{
    let (ax, ay) = (a.x - p.x, a.y - p.y);
    let (bx, by) = (b.x - p.x, b.y - p.y);
    let (cx, cy) = (c.x - p.x, c.y - p.y);
    let (u, v, w) = (bx * cy - by * cx, cx * ay - cy * ax, ax * by - ay * bx);
    about(a, b, p);
    about(b, c, p);
    about(c, a, p);
    // u·a + v·b + w·c = 0.
    assert(u * ay + v * by + w * cy == 0) by {
        assert((bx * cy - by * cx) * ay == bx * cy * ay - by * cx * ay) by (nonlinear_arith);
        assert((cx * ay - cy * ax) * by == cx * ay * by - cy * ax * by) by (nonlinear_arith);
        assert((ax * by - ay * bx) * cy == ax * by * cy - ay * bx * cy) by (nonlinear_arith);
        assert(bx * cy * ay == ay * bx * cy) by (nonlinear_arith);
        assert(by * cx * ay == cx * ay * by) by (nonlinear_arith);
        assert(cy * ax * by == ax * by * cy) by (nonlinear_arith);
    }
    if ay <= 0 && by <= 0 && cy <= 0 {
        all_level(u, v, w, ay, by, cy);
    }
    if ay >= 0 && by >= 0 && cy >= 0 {
        all_level(u, v, w, ay, by, cy);
    }
}

/// The side of an edge, by the vectors from the point.
proof fn about(a: Point, b: Point, p: Point)
    ensures
        seg::cross(a, b, p) == (a.x - p.x) * (b.y - p.y) - (a.y - p.y) * (b.x - p.x),
{
    let (ax, ay) = (a.x - p.x, a.y - p.y);
    let (bx, by) = (b.x - p.x, b.y - p.y);
    assert((bx - ax) * (-ay) - (by - ay) * (-ax) == ax * by - ay * bx) by (nonlinear_arith);
    assert(b.x - a.x == bx - ax && b.y - a.y == by - ay && p.x - a.x == -ax && p.y - a.y == -ay);
}

/// Weights of one sign that balance levels of one sign balance only zero levels, which leave
/// no weight.
proof fn all_level(u: int, v: int, w: int, x: int, y: int, z: int)
    requires
        u * x + v * y + w * z == 0,
        (u > 0 && v > 0 && w > 0) || (u < 0 && v < 0 && w < 0),
        (x <= 0 && y <= 0 && z <= 0) || (x >= 0 && y >= 0 && z >= 0),
    ensures
        x == 0,
        y == 0,
        z == 0,
{
    let (a, b, c) = (u * x, v * y, w * z);
    assert((a >= 0 && b >= 0 && c >= 0) || (a <= 0 && b <= 0 && c <= 0)) by (nonlinear_arith)
        requires
            a == u * x,
            b == v * y,
            c == w * z,
            (u > 0 && v > 0 && w > 0) || (u < 0 && v < 0 && w < 0),
            (x <= 0 && y <= 0 && z <= 0) || (x >= 0 && y >= 0 && z >= 0),
    ;
    assert(x == 0) by (nonlinear_arith)
        requires
            u * x == 0,
            u != 0,
    ;
    assert(y == 0) by (nonlinear_arith)
        requires
            v * y == 0,
            v != 0,
    ;
    assert(z == 0) by (nonlinear_arith)
        requires
            w * z == 0,
            w != 0,
    ;
}

/// A point strictly inside a triangle is enclosed by it.
proof fn inside_is_odd(a: Point, b: Point, c: Point, p: Point)
    requires
        strictly_inside(p, a, b, c),
    ensures
        polygon::odd_crossings(p, triangle(a, b, c)),
{
    triangle_crossings(a, b, c, p);
    crossing_by_side(a, b, p);
    crossing_by_side(b, c, p);
    crossing_by_side(c, a, p);
    inside_is_between_levels(a, b, c, p);
}

/// The line of an edge, which rises to its left, as a height.
proof fn height_of_an_edge(a: Point, b: Point, x: Point)
    ensures
        ({
            let (u, w) = (-(b.y - a.y), b.x - a.x);
            halfplane::height(u, w, -(u * a.x + w * a.y), x) == seg::cross(a, b, x)
        }),
{
    let (u, w) = (-(b.y - a.y), b.x - a.x);
    lemma_mul_is_distributive_sub(u, x.x as int, a.x as int);
    lemma_mul_is_distributive_sub(w, x.y as int, a.y as int);
    lemma_mul_unary_negation(b.y - a.y, x.x - a.x);
}

/// A point beyond an edge of a triangle is neither in it nor on it.
proof fn beyond_is_even(a: Point, b: Point, c: Point, p: Point, ring: Seq<Point>)
    requires
        seg::cross(a, b, c) > 0 && seg::cross(a, b, p) < 0 || seg::cross(a, b, c) < 0 && seg::cross(
            a,
            b,
            p,
        ) > 0,
        forall|i: int|
            0 <= i < ring.len() ==> #[trigger] ring[i] == a || ring[i] == b || ring[i] == c,
    ensures
        !polygon::odd_crossings(p, ring),
        !polygon::on_boundary(p, ring),
{
    let (u, w) = (-(b.y - a.y), b.x - a.x);
    let k = -(u * a.x + w * a.y);
    height_of_an_edge(a, b, a);
    height_of_an_edge(a, b, b);
    height_of_an_edge(a, b, c);
    height_of_an_edge(a, b, p);
    on_own_line(a, b);
    if seg::cross(a, b, p) > 0 {
        halfplane::above_the_ring(p, ring, u, w, k);
    } else {
        let (nu, nw, nk) = (-u, -w, -k);
        turned_height(u, w, k, a);
        turned_height(u, w, k, b);
        turned_height(u, w, k, c);
        turned_height(u, w, k, p);
        halfplane::above_the_ring(p, ring, nu, nw, nk);
    }
}

proof fn turned_height(u: int, w: int, k: int, x: Point)
    ensures
        halfplane::height(-u, -w, -k, x) == -halfplane::height(u, w, k, x),
{
    lemma_mul_unary_negation(u, x.x as int);
    lemma_mul_unary_negation(w, x.y as int);
}

proof fn on_own_line(a: Point, b: Point)
    ensures
        seg::cross(a, b, a) == 0,
        seg::cross(a, b, b) == 0,
{
    let (dx, dy) = (b.x - a.x, b.y - a.y);
    assert(dx * dy - dy * dx == 0) by (nonlinear_arith);
    assert(dx * 0 - dy * 0 == 0);
}

proof fn sum_of_turns(ax: int, ay: int, bx: int, by: int, cx: int, cy: int)
    ensures
        (bx - ax) * (cy - ay) - (by - ay) * (cx - ax) == (ax * by - ay * bx) + (bx * cy - by * cx)
            + (cx * ay - cy * ax),
{
    lemma_mul_is_distributive_sub_other_way(cy - ay, bx, ax);
    lemma_mul_is_distributive_sub(bx, cy, ay);
    lemma_mul_is_distributive_sub(ax, cy, ay);
    lemma_mul_is_distributive_sub_other_way(cx - ax, by, ay);
    lemma_mul_is_distributive_sub(by, cx, ax);
    lemma_mul_is_distributive_sub(ay, cx, ax);
    lemma_mul_is_commutative(ax, ay);
    lemma_mul_is_commutative(ax, by);
    lemma_mul_is_commutative(bx, ay);
    lemma_mul_is_commutative(cx, ay);
    lemma_mul_is_commutative(cy, ax);
}

/// The sides of a point add up to twice the area of the triangle.
proof fn sides_add_up(a: Point, b: Point, c: Point, p: Point)
    ensures
        seg::cross(a, b, p) + seg::cross(b, c, p) + seg::cross(c, a, p) == seg::cross(a, b, c),
        seg::cross(b, c, a) == seg::cross(a, b, c),
        seg::cross(c, a, b) == seg::cross(a, b, c),
{
    about(a, b, p);
    about(b, c, p);
    about(c, a, p);
    let (ax, ay) = (a.x - p.x, a.y - p.y);
    let (bx, by) = (b.x - p.x, b.y - p.y);
    let (cx, cy) = (c.x - p.x, c.y - p.y);
    sum_of_turns(ax, ay, bx, by, cx, cy);
    sum_of_turns(bx, by, cx, cy, ax, ay);
    sum_of_turns(cx, cy, ax, ay, bx, by);
    assert(b.x - a.x == bx - ax && b.y - a.y == by - ay && c.x - a.x == cx - ax && c.y - a.y == cy
        - ay);
    assert(c.x - b.x == cx - bx && c.y - b.y == cy - by && a.x - b.x == ax - bx && a.y - b.y == ay
        - by);
    assert(a.x - c.x == ax - cx && a.y - c.y == ay - cy && b.x - c.x == bx - cx && b.y - c.y == by
        - cy);
}

// ---------------------------------------------------------------------------
// Laws.
// ---------------------------------------------------------------------------

/// A triangle that is no line encloses exactly the points strictly inside it, among those
/// that are not on the line of one of its edges.
pub proof fn triangle_holds_its_inside(a: Point, b: Point, c: Point, p: Point)
    requires
        seg::cross(a, b, c) != 0,
        seg::cross(a, b, p) != 0,
        seg::cross(b, c, p) != 0,
        seg::cross(c, a, p) != 0,
    ensures
        polygon::in_polygon(p, triangle(a, b, c)) <==> strictly_inside(p, a, b, c),
        polygon::odd_crossings(p, triangle(a, b, c)) <==> strictly_inside(p, a, b, c),
{
    let t = triangle(a, b, c);
    sides_add_up(a, b, c, p);
    if strictly_inside(p, a, b, c) {
        inside_is_odd(a, b, c, p);
    } else if (seg::cross(a, b, c) > 0) != (seg::cross(a, b, p) > 0) {
        beyond_is_even(a, b, c, p, t);
    } else if (seg::cross(a, b, c) > 0) != (seg::cross(b, c, p) > 0) {
        beyond_is_even(b, c, a, p, t);
    } else {
        assert((seg::cross(a, b, c) > 0) != (seg::cross(c, a, p) > 0));
        beyond_is_even(c, a, b, p, t);
    }
}

/// The corners and the edges of a polygon belong to it.
pub proof fn polygon_holds_its_boundary(ring: Seq<Point>, i: int, p: Point)
    requires
        ring.len() >= 3,
        0 <= i < ring.len(),
        seg::on_segment(
            ring[i],
            ring[if i + 1 == ring.len() {
                0
            } else {
                i + 1
            }],
            p,
        ),
    ensures
        polygon::in_polygon(p, ring),
{
    assert(seg::on_segment(ring[i], ring[polygon::next(i, ring.len() as int)], p));
}

/// Cutting off a corner: a polygon encloses a point exactly when the triangle of its last
/// corner or the polygon without that corner does, and not both. The point is not on the cut.
pub proof fn cutting_off_a_corner(ring: Seq<Point>, p: Point)
    requires
        ring.len() >= 4,
        !seg::on_segment(ring[0], ring[ring.len() - 2], p),
    ensures
        polygon::odd_crossings(p, ring) == (polygon::odd_crossings(p, ring.drop_last())
            != polygon::odd_crossings(
            p,
            triangle(ring[0], ring[ring.len() - 2], ring[ring.len() - 1]),
        )),
{
    let n = ring.len() as int;
    let rest = ring.drop_last();
    let (a, b, c) = (ring[0], ring[n - 2], ring[n - 1]);
    triangle_crossings(a, b, c, p);
    crossing_is_symmetric(a, b, p);
    same_crossings(ring, p, (n - 1) as nat);
    assert(polygon::prev(n - 1, n) == n - 2);
}

/// But for the first edge, the crossings are those of the polygon without its last corner.
proof fn same_crossings(ring: Seq<Point>, p: Point, k: nat)
    requires
        ring.len() >= 4,
        1 <= k <= ring.len() - 1,
    ensures
        polygon::crossings(p, ring, k) - (if polygon::crosses_ray(
            ring[0],
            ring[ring.len() - 1],
            p,
        ) {
            1int
        } else {
            0
        }) == polygon::crossings(p, ring.drop_last(), k) - (if polygon::crosses_ray(
            ring[0],
            ring[ring.len() - 2],
            p,
        ) {
            1int
        } else {
            0
        }),
    decreases k,
{
    let rest = ring.drop_last();
    if k == 1 {
        assert(polygon::crossings(p, ring, 0) == 0 && polygon::crossings(p, rest, 0) == 0);
        assert(rest[0] == ring[0] && rest[rest.len() - 1] == ring[ring.len() - 2]);
    } else {
        same_crossings(ring, p, (k - 1) as nat);
        assert(rest[k - 1] == ring[k - 1] && rest[k - 2] == ring[k - 2]);
    }
}

/// A point that is enclosed by a ring within another, and is on neither, is in the area between
/// them only if it is enclosed by one of the two and not by both: holes are left out.
pub proof fn holes_are_left_out(outer: Seq<Point>, hole: Seq<Point>, p: Point)
    requires
        !polygon::on_boundary(p, outer),
        !polygon::on_boundary(p, hole),
    ensures
        polygon::in_region(p, seq![outer, hole]) <==> polygon::odd_crossings(p, outer)
            != polygon::odd_crossings(p, hole),
{
    let r = seq![outer, hole];
    reveal_with_fuel(polygon::enclosing, 3);
    assert(r[0] == outer && r[1] == hole);
    assert forall|i: int| 0 <= i < r.len() implies !polygon::on_boundary(p, #[trigger] r[i]) by {}
}

} // verus!
