//! Where curved edges are cut when they are flattened.

use super::limits;
use super::path;
use super::path::{Circle, MAX_BEZIER_DEPTH};
use super::seg;
use crate::binary64;
use crate::coord::Point;
use vstd::prelude::*;

verus! {

/// The number is off the exact `sum / parts` by at most `off / parts`.
pub open spec fn near_share(n: int, sum: int, parts: int, off: int) -> bool {
    -off <= parts * n - sum <= off
}

/// The point is halfway between two points, to a nanometre.
pub open spec fn is_halfway(m: Point, a: Point, b: Point) -> bool {
    near_share(m.x as int, a.x + b.x, 2, 1) && near_share(m.y as int, a.y + b.y, 2, 1)
}

/// The point is on the quadratic curve of three control points, at its middle, to a
/// nanometre.
pub open spec fn on_quadratic(m: Point, p0: Point, c: Point, p2: Point) -> bool {
    &&& near_share(m.x as int, p0.x + 2 * c.x + p2.x, 4, 4)
    &&& near_share(m.y as int, p0.y + 2 * c.y + p2.y, 4, 4)
}

/// The point is on the cubic curve of four control points, at its middle, to a nanometre
/// and a half.
pub open spec fn on_cubic(m: Point, p0: Point, c1: Point, c2: Point, p3: Point) -> bool {
    &&& near_share(m.x as int, p0.x + 3 * c1.x + 3 * c2.x + p3.x, 8, 12)
    &&& near_share(m.y as int, p0.y + 3 * c1.y + 3 * c2.y + p3.y, 8, 12)
}

/// A quadratic edge that is not flat is cut at the middle of its curve, and each half is the
/// curve of its own control points: those halfway to the old one.
pub proof fn a_quadratic_is_cut_on_its_curve(
    p0: Point,
    c: Point,
    p2: Point,
    tol2: int,
    depth: nat,
) -> (cut: (Point, Point, Point))
    requires
        depth < MAX_BEZIER_DEPTH,
        !seg::point_within(c, p0, p2, tol2),
        limits::pt_safe(p0),
        limits::pt_safe(c),
        limits::pt_safe(p2),
    ensures
        ({
            let (a, m, b) = cut;
            &&& is_halfway(a, p0, c)
            &&& is_halfway(b, c, p2)
            &&& on_quadratic(m, p0, c, p2)
            &&& path::quad_points(p0, c, p2, tol2, depth) == path::quad_points(
                p0,
                a,
                m,
                tol2,
                depth + 1,
            ) + path::quad_points(m, b, p2, tol2, depth + 1)
        }),
{
    let (a, b) = (path::mid_of(p0, c), path::mid_of(c, p2));
    (a, path::mid_of(a, b), b)
}

/// A cubic edge that is not flat is cut at the middle of its curve, and each half is the
/// curve of its own control points.
pub proof fn a_cubic_is_cut_on_its_curve(
    p0: Point,
    c1: Point,
    c2: Point,
    p3: Point,
    tol2: int,
    depth: nat,
) -> (cut: (Point, Point, Point, Point, Point))
    requires
        depth < MAX_BEZIER_DEPTH,
        !(seg::point_within(c1, p0, p3, tol2) && seg::point_within(c2, p0, p3, tol2)),
        limits::pt_safe(p0),
        limits::pt_safe(c1),
        limits::pt_safe(c2),
        limits::pt_safe(p3),
    ensures
        ({
            let (a, k, m, l, b) = cut;
            &&& is_halfway(a, p0, c1)
            &&& is_halfway(b, c2, p3)
            &&& on_quadratic(k, p0, c1, c2)
            &&& on_quadratic(l, c1, c2, p3)
            &&& on_cubic(m, p0, c1, c2, p3)
            &&& path::cubic_points(p0, c1, c2, p3, tol2, depth) == path::cubic_points(
                p0,
                a,
                k,
                m,
                tol2,
                depth + 1,
            ) + path::cubic_points(m, l, b, p3, tol2, depth + 1)
        }),
{
    let (a, n, b) = (path::mid_of(p0, c1), path::mid_of(c1, c2), path::mid_of(c2, p3));
    let (k, l) = (path::mid_of(a, n), path::mid_of(n, b));
    (a, k, path::mid_of(k, l), l, b)
}

/// A flat curve is its chord.
pub proof fn a_flat_curve_is_its_chord(
    p0: Point,
    c1: Point,
    c2: Point,
    p3: Point,
    tol2: int,
    depth: nat,
)
    ensures
        seg::point_within(c1, p0, p3, tol2) ==> path::quad_points(p0, c1, p3, tol2, depth)
            == seq![p3],
        seg::point_within(c1, p0, p3, tol2) && seg::point_within(c2, p0, p3, tol2)
            ==> path::cubic_points(p0, c1, c2, p3, tol2, depth) == seq![p3],
{
}

/// An arc passes through its middle point and ends at its end; one whose points are in line
/// is straight.
pub proof fn an_arc_passes_through_its_middle(start: Point, mid: Point, end: Point, tol: int)
    ensures
        ({
            let v = path::arc_points(start, mid, end, tol);
            &&& v.len() > 0
            &&& v.last() == end
            &&& seg::cross(start, mid, end) != 0 ==> v.contains(mid)
            &&& seg::cross(start, mid, end) == 0 ==> v == seq![end]
        }),
{
    let (ax, ay, bx, by, cx, cy) = (
        start.x as int,
        start.y as int,
        mid.x as int,
        mid.y as int,
        end.x as int,
        end.y as int,
    );
    assert(2 * (ax * (by - cy) + bx * (cy - ay) + cx * (ay - by)) == 2 * ((bx - ax) * (cy - ay) - (
    by - ay) * (cx - ax))) by (nonlinear_arith);
    if path::circum(start, mid, end).2 != 0 {
        let c = path::circle_of(start, mid, end, tol);
        path::sub_arc_end(start, mid, c, 0);
        path::sub_arc_end(mid, end, c, 0);
        let a = path::sub_arc(start, mid, c, 0);
        let b = path::sub_arc(mid, end, c, 0);
        let v = a + b;
        assert(v[a.len() - 1] == mid);
    }
}

/// The point of the circle is on the side of the chord that the arc turns to.
pub open spec fn on_the_turning_side(p: Point, q: Point, c: Circle, far: bool) -> bool {
    let r = if far {
        binary64::negated(c.r)
    } else {
        c.r
    };
    let (x, y) = path::over_chord(p, q, c, r);
    path::positive(path::side_of(x, y, p, q)) == c.ccw
}

/// Of the two points of the circle over a chord an arc is cut at the one on the side that it
/// turns to.
pub proof fn an_arc_is_cut_on_its_turning_side(p: Point, q: Point, c: Circle)
    requires
        on_the_turning_side(p, q, c, true) != on_the_turning_side(p, q, c, false),
    ensures
        path::apex_at(p, q, c) == path::over_chord(
            p,
            q,
            c,
            if on_the_turning_side(p, q, c, true) {
                binary64::negated(c.r)
            } else {
                c.r
            },
        ),
{
}

} // verus!
