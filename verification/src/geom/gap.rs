//! What the clearance test says of the points of two shapes.

use super::clearance;
use super::interior;
use super::limits;
use super::limits::DEFAULT_CHORD_TOL;
use super::nearness::{fraction, grow, off2, square};
use super::path;
use super::polygon;
use super::seg;
use super::separation;
use super::separation::{points_reach, points_within};
use super::shape;
use super::shape::ShapeV;
use crate::coord::Point;
use crate::precision;
use vstd::prelude::*;

verus! {

/// Two points follow each other on a line of points; a lone point follows itself.
pub open spec fn follow(line: Seq<Point>, p: Point, q: Point) -> bool {
    ||| exists|i: int| 0 <= i && i + 1 < line.len() && #[trigger] line[i] == p && line[i + 1] == q
    ||| line.len() == 1 && line[0] == p && line[0] == q
}

/// Two points follow each other round a ring of points.
pub open spec fn follow_round(ring: Seq<Point>, p: Point, q: Point) -> bool {
    ||| exists|i: int| 0 <= i && i + 1 < ring.len() && #[trigger] ring[i] == p && ring[i + 1] == q
    ||| ring.len() > 0 && ring[ring.len() - 1] == p && ring[0] == q
}

/// The skeleton of the shape has a straight piece from `p` to `q`: a stroke runs along its
/// points, a polygon runs round them, an area runs round each ring of two points or more.
pub open spec fn drawn(s: ShapeV, p: Point, q: Point) -> bool {
    match s {
        ShapeV::Stroke { .. } => follow(shape::skeleton(s), p, q),
        ShapeV::Polygon { .. } => follow_round(shape::skeleton(s), p, q),
        ShapeV::Area { rings } => exists|k: int|
            0 <= k < rings.len() && (#[trigger] rings[k]).len() >= 2 && follow_round(
                rings[k],
                p,
                q,
            ),
    }
}

/// The lattice point `q` is in the shape: in the area that it fills, or no farther from its
/// skeleton than its radius.
pub open spec fn covers(s: ShapeV, q: Point) -> bool {
    ||| shape::area_has(s, q)
    ||| exists|p1: Point, p2: Point, t: real|
        #![trigger off2(q, p1, p2, t)]
        drawn(s, p1, p2) && fraction(t) && off2(q, p1, p2, t) <= (shape::radius_of(s)
            * shape::radius_of(s)) as real
}

/// Some piece of one shape and some piece of the other have points nearer than `d`.
pub open spec fn pieces_within(a: ShapeV, b: ShapeV, d: int) -> bool {
    exists|p1: Point, p2: Point, q1: Point, q2: Point|
        #![trigger points_within(p1, p2, q1, q2, d * d)]
        drawn(a, p1, p2) && drawn(b, q1, q2) && points_within(p1, p2, q1, q2, d * d)
}

/// Some piece of one shape and some piece of the other have points no farther apart than `d`.
pub open spec fn pieces_reach(a: ShapeV, b: ShapeV, d: int) -> bool {
    exists|p1: Point, p2: Point, q1: Point, q2: Point|
        #![trigger points_reach(p1, p2, q1, q2, d * d)]
        drawn(a, p1, p2) && drawn(b, q1, q2) && points_reach(p1, p2, q1, q2, d * d)
}

/// A corner of `a` is in the area that `b` fills.
pub open spec fn corner_in(a: ShapeV, b: ShapeV) -> bool {
    exists|p: Point| #[trigger] shape::skeleton(a).contains(p) && shape::area_has(b, p)
}

/// A corner of one shape is in the area that the other fills.
pub open spec fn holds_a_corner(a: ShapeV, b: ShapeV) -> bool {
    corner_in(a, b) || corner_in(b, a)
}

// ---------------------------------------------------------------------------
// Edges and pieces.
// ---------------------------------------------------------------------------

proof fn ring_pieces(rings: Seq<Seq<Point>>, k: nat, p: Point, q: Point)
    requires
        k <= rings.len(),
    ensures
        shape::ring_edges(rings, k).contains((p, q)) <==> exists|m: int|
            0 <= m < k && (#[trigger] rings[m]).len() >= 2 && follow_round(rings[m], p, q),
    decreases k,
{
    let all = shape::ring_edges(rings, k);
    if k > 0 {
        let prev = shape::ring_edges(rings, (k - 1) as nat);
        let ring = rings[k - 1];
        let own = shape::closed_edges(ring);
        ring_pieces(rings, (k - 1) as nat, p, q);
        closed_pieces(ring, p, q);
        if ring.len() >= 2 {
            if all.contains((p, q)) {
                let i = choose|i: int| 0 <= i < all.len() && all[i] == (p, q);
                if i < prev.len() {
                    assert(prev[i] == (p, q));
                    assert(prev.contains((p, q)));
                } else {
                    assert(own[i - prev.len()] == (p, q));
                    assert(own.contains((p, q)));
                    assert(follow_round(rings[k - 1], p, q));
                }
            }
            if prev.contains((p, q)) {
                let i = choose|i: int| 0 <= i < prev.len() && prev[i] == (p, q);
                assert(all[i] == (p, q));
            }
            if own.contains((p, q)) {
                let i = choose|i: int| 0 <= i < own.len() && own[i] == (p, q);
                assert(all[prev.len() + i] == (p, q));
            }
        }
        if exists|m: int|
            0 <= m < k && (#[trigger] rings[m]).len() >= 2 && follow_round(rings[m], p, q) {
            let m = choose|m: int|
                0 <= m < k && (#[trigger] rings[m]).len() >= 2 && follow_round(rings[m], p, q);
            if m < k - 1 {
                assert(rings[m].len() >= 2);
                assert(prev.contains((p, q)));
            }
        }
    }
}

proof fn closed_pieces(ring: Seq<Point>, p: Point, q: Point)
    ensures
        shape::closed_edges(ring).contains((p, q)) <==> follow_round(ring, p, q),
{
    let es = shape::closed_edges(ring);
    let n = ring.len() as int;
    if es.contains((p, q)) {
        let i = choose|i: int| 0 <= i < es.len() && es[i] == (p, q);
        assert(ring[i] == p && ring[polygon::next(i, n)] == q);
        if i + 1 < n {
            assert(polygon::next(i, n) == i + 1);
        }
    }
    if follow_round(ring, p, q) {
        if exists|i: int|
            0 <= i && i + 1 < ring.len() && #[trigger] ring[i] == p && ring[i + 1] == q {
            let i = choose|i: int|
                0 <= i && i + 1 < ring.len() && #[trigger] ring[i] == p && ring[i + 1] == q;
            assert(polygon::next(i, n) == i + 1);
            assert(es[i] == (p, q));
        } else {
            assert(polygon::next(n - 1, n) == 0);
            assert(es[n - 1] == (p, q));
        }
    }
}

/// The edges of a line of points join those that follow each other.
pub proof fn open_pieces(line: Seq<Point>, p: Point, q: Point)
    requires
        line.len() > 0,
    ensures
        shape::open_edges(line).contains((p, q)) <==> follow(line, p, q),
{
    let es = shape::open_edges(line);
    if line.len() == 1 {
        if follow(line, p, q) {
            assert(es[0] == (p, q));
        }
    } else {
        if es.contains((p, q)) {
            let i = choose|i: int| 0 <= i < es.len() && es[i] == (p, q);
            assert(line[i] == p && line[i + 1] == q);
        }
        if follow(line, p, q) {
            let i = choose|i: int|
                0 <= i && i + 1 < line.len() && #[trigger] line[i] == p && line[i + 1] == q;
            assert(es[i] == (p, q));
        }
    }
}

/// The edges of a shape are the straight pieces of its skeleton.
pub proof fn edges_are_the_pieces(s: ShapeV, p: Point, q: Point)
    requires
        shape::skeleton(s).len() > 0,
    ensures
        shape::edges(s).contains((p, q)) <==> drawn(s, p, q),
{
    match s {
        ShapeV::Stroke { .. } => open_pieces(shape::skeleton(s), p, q),
        ShapeV::Polygon { .. } => closed_pieces(shape::skeleton(s), p, q),
        ShapeV::Area { rings } => ring_pieces(rings, rings.len(), p, q),
    }
}

/// The skeleton of a disc is its centre.
pub proof fn disc_is_its_centre(c: Point, r: int)
    ensures
        shape::skeleton(shape::disc_of(c, r)) == seq![c],
{
    assert(shape::skeleton(shape::disc_of(c, r)) =~= seq![c]);
}

/// The skeleton of a trace is its path.
pub proof fn trace_is_its_path(path: Seq<Point>, width: int)
    requires
        path.len() > 0,
    ensures
        shape::skeleton(shape::trace_of(path, width)) == path,
{
    path::straight_path_is_its_corners(path::polyline_of(path), DEFAULT_CHORD_TOL as int);
    assert(path::corners_of(path::polyline_of(path)) =~= path);
}

/// The skeleton of a capsule is its two ends.
pub proof fn capsule_is_its_ends(a: Point, b: Point, r: int)
    ensures
        shape::skeleton(shape::capsule_of(a, b, r)) == seq![a, b],
{
    let p = shape::path_of(shape::capsule_of(a, b, r));
    path::straight_path_is_its_corners(p, DEFAULT_CHORD_TOL as int);
    assert(path::corners_of(p) =~= seq![a, b]);
}

/// The skeleton of a polygon through points is those points.
pub proof fn polygon_is_its_points(pts: Seq<Point>, r: i64)
    requires
        pts.len() > 0,
    ensures
        shape::skeleton(ShapeV::Polygon { path: path::polyline_of(pts), radius: r }) == pts,
{
    path::straight_path_is_its_corners(path::polyline_of(pts), DEFAULT_CHORD_TOL as int);
    assert(path::corners_of(path::polyline_of(pts)) =~= pts);
}

/// A disc is all points no farther from its centre than its radius.
pub proof fn disc_is_round(c: Point, r: i64, q: Point)
    ensures
        covers(shape::disc_of(c, r as int), q) <==> (q.x - c.x) * (q.x - c.x) + (q.y - c.y) * (q.y
            - c.y) <= r * r,
{
    let s = shape::disc_of(c, r as int);
    disc_is_its_centre(c, r as int);
    let (dx, dy) = (q.x - c.x, q.y - c.y);
    precision::int_product(dx, dx);
    precision::int_product(dy, dy);
    assert forall|t: real| #[trigger] off2(q, c, c, t) == (dx * dx + dy * dy) as real by {
        assert(t * (0 as real) == 0 as real) by (nonlinear_arith);
    }
    assert(shape::skeleton(s)[0] == c);
    assert(drawn(s, c, c));
    assert(off2(q, c, c, 0 as real) == (dx * dx + dy * dy) as real);
}

proof fn inside_is_a_corner(a: ShapeV, b: ShapeV)
    ensures
        clearance::some_inside(shape::skeleton(a), b) == corner_in(a, b),
{
    let v = shape::skeleton(a);
    if clearance::some_inside(v, b) {
        let i = choose|i: int| 0 <= i < v.len() && #[trigger] shape::area_has(b, v[i]);
        assert(v.contains(v[i]));
    }
    if corner_in(a, b) {
        let p = choose|p: Point| #[trigger] v.contains(p) && shape::area_has(b, p);
        let i = choose|i: int| 0 <= i < v.len() && v[i] == p;
        assert(shape::area_has(b, v[i]));
    }
}

proof fn edges_within_are_pieces(a: ShapeV, b: ShapeV, d: int)
    requires
        d > 0,
        shape::skeleton(a).len() > 0,
        shape::skeleton(b).len() > 0,
    ensures
        clearance::some_edges_meet(shape::edges(a), shape::edges(b))
            || clearance::some_edges_within(shape::edges(a), shape::edges(b), d * d)
            <==> pieces_within(a, b, d),
{
    let (ea, eb) = (shape::edges(a), shape::edges(b));
    assert(d * d > 0) by (nonlinear_arith)
        requires
            d > 0,
    ;
    if clearance::some_edges_meet(ea, eb) {
        let (i, j) = choose|i: int, j: int|
            0 <= i < ea.len() && 0 <= j < eb.len() && #[trigger] seg::segments_meet(
                ea[i].0,
                ea[i].1,
                eb[j].0,
                eb[j].1,
            );
        edge_pair(a, b, i, j);
        separation::near_or_meeting_is_exact(ea[i].0, ea[i].1, eb[j].0, eb[j].1, d * d);
    }
    if clearance::some_edges_within(ea, eb, d * d) {
        let (i, j) = choose|i: int, j: int|
            0 <= i < ea.len() && 0 <= j < eb.len() && #[trigger] seg::ends_within(
                ea[i].0,
                ea[i].1,
                eb[j].0,
                eb[j].1,
                d * d,
            );
        edge_pair(a, b, i, j);
        separation::near_or_meeting_is_exact(ea[i].0, ea[i].1, eb[j].0, eb[j].1, d * d);
    }
    if pieces_within(a, b, d) {
        let (p1, p2, q1, q2) = choose|p1: Point, p2: Point, q1: Point, q2: Point|
            #![trigger points_within(p1, p2, q1, q2, d * d)]
            drawn(a, p1, p2) && drawn(b, q1, q2) && points_within(p1, p2, q1, q2, d * d);
        edges_are_the_pieces(a, p1, p2);
        edges_are_the_pieces(b, q1, q2);
        let i = choose|i: int| 0 <= i < ea.len() && ea[i] == (p1, p2);
        let j = choose|j: int| 0 <= j < eb.len() && eb[j] == (q1, q2);
        separation::near_or_meeting_is_exact(p1, p2, q1, q2, d * d);
        assert(seg::segments_meet(ea[i].0, ea[i].1, eb[j].0, eb[j].1) || seg::ends_within(
            ea[i].0,
            ea[i].1,
            eb[j].0,
            eb[j].1,
            d * d,
        ));
    }
}

proof fn edge_pair(a: ShapeV, b: ShapeV, i: int, j: int)
    requires
        0 <= i < shape::edges(a).len(),
        0 <= j < shape::edges(b).len(),
        shape::skeleton(a).len() > 0,
        shape::skeleton(b).len() > 0,
    ensures
        drawn(a, shape::edges(a)[i].0, shape::edges(a)[i].1),
        drawn(b, shape::edges(b)[j].0, shape::edges(b)[j].1),
{
    let (e, f) = (shape::edges(a)[i], shape::edges(b)[j]);
    edges_are_the_pieces(a, e.0, e.1);
    edges_are_the_pieces(b, f.0, f.1);
    assert(shape::edges(a).contains(e) && e == (e.0, e.1));
    assert(shape::edges(b).contains(f) && f == (f.0, f.1));
}

proof fn edges_reach_are_pieces(a: ShapeV, b: ShapeV, d: int)
    requires
        d >= 0,
        shape::skeleton(a).len() > 0,
        shape::skeleton(b).len() > 0,
    ensures
        clearance::some_edges_meet(shape::edges(a), shape::edges(b))
            || clearance::some_edges_reach(shape::edges(a), shape::edges(b), d * d)
            <==> pieces_reach(a, b, d),
{
    let (ea, eb) = (shape::edges(a), shape::edges(b));
    assert(d * d >= 0) by (nonlinear_arith);
    if clearance::some_edges_meet(ea, eb) {
        let (i, j) = choose|i: int, j: int|
            0 <= i < ea.len() && 0 <= j < eb.len() && #[trigger] seg::segments_meet(
                ea[i].0,
                ea[i].1,
                eb[j].0,
                eb[j].1,
            );
        edge_pair(a, b, i, j);
        separation::reaching_or_meeting_is_exact(ea[i].0, ea[i].1, eb[j].0, eb[j].1, d * d);
    }
    if clearance::some_edges_reach(ea, eb, d * d) {
        let (i, j) = choose|i: int, j: int|
            0 <= i < ea.len() && 0 <= j < eb.len() && #[trigger] seg::ends_reach(
                ea[i].0,
                ea[i].1,
                eb[j].0,
                eb[j].1,
                d * d,
            );
        edge_pair(a, b, i, j);
        separation::reaching_or_meeting_is_exact(ea[i].0, ea[i].1, eb[j].0, eb[j].1, d * d);
    }
    if pieces_reach(a, b, d) {
        let (p1, p2, q1, q2) = choose|p1: Point, p2: Point, q1: Point, q2: Point|
            #![trigger points_reach(p1, p2, q1, q2, d * d)]
            drawn(a, p1, p2) && drawn(b, q1, q2) && points_reach(p1, p2, q1, q2, d * d);
        edges_are_the_pieces(a, p1, p2);
        edges_are_the_pieces(b, q1, q2);
        let i = choose|i: int| 0 <= i < ea.len() && ea[i] == (p1, p2);
        let j = choose|j: int| 0 <= j < eb.len() && eb[j] == (q1, q2);
        separation::reaching_or_meeting_is_exact(p1, p2, q1, q2, d * d);
        assert(seg::segments_meet(ea[i].0, ea[i].1, eb[j].0, eb[j].1) || seg::ends_reach(
            ea[i].0,
            ea[i].1,
            eb[j].0,
            eb[j].1,
            d * d,
        ));
    }
}

// ---------------------------------------------------------------------------
// Laws.
// ---------------------------------------------------------------------------

/// A positive clearance is violated exactly by shapes one of which holds a corner of the
/// other, and by shapes whose skeletons have two points nearer than the clearance and both
/// radii together.
pub proof fn clearance_is_the_distance(a: ShapeV, b: ShapeV, min_clr: int)
    requires
        shape::skeleton(a).len() > 0,
        shape::skeleton(b).len() > 0,
        shape::radius_of(a) >= 0,
        shape::radius_of(b) >= 0,
        min_clr > 0,
    ensures
        clearance::violates(a, b, min_clr) <==> holds_a_corner(a, b) || pieces_within(
            a,
            b,
            min_clr + shape::radius_of(a) + shape::radius_of(b),
        ),
{
    let d = min_clr + shape::radius_of(a) + shape::radius_of(b);
    inside_is_a_corner(a, b);
    inside_is_a_corner(b, a);
    edges_within_are_pieces(a, b, d);
    if clearance::touching(a, b) {
        clearance::touching_is_closer(a, b, min_clr);
    }
}

/// Being closer than a positive clearance is the same.
pub proof fn closer_is_the_distance(a: ShapeV, b: ShapeV, clr: int)
    requires
        shape::skeleton(a).len() > 0,
        shape::skeleton(b).len() > 0,
        shape::radius_of(a) >= 0,
        shape::radius_of(b) >= 0,
        clr > 0,
    ensures
        clearance::closer(a, b, clr) <==> holds_a_corner(a, b) || pieces_within(
            a,
            b,
            clr + shape::radius_of(a) + shape::radius_of(b),
        ),
{
    inside_is_a_corner(a, b);
    inside_is_a_corner(b, a);
    edges_within_are_pieces(a, b, clr + shape::radius_of(a) + shape::radius_of(b));
}

/// A clearance of zero is violated exactly by shapes that overlap or touch: one holds a corner
/// of the other, or their skeletons have two points no farther apart than both radii.
pub proof fn no_clearance_is_touching(a: ShapeV, b: ShapeV)
    requires
        shape::skeleton(a).len() > 0,
        shape::skeleton(b).len() > 0,
        shape::radius_of(a) >= 0,
        shape::radius_of(b) >= 0,
    ensures
        clearance::violates(a, b, 0) <==> holds_a_corner(a, b) || pieces_reach(
            a,
            b,
            shape::radius_of(a) + shape::radius_of(b),
        ),
{
    inside_is_a_corner(a, b);
    inside_is_a_corner(b, a);
    edges_reach_are_pieces(a, b, shape::radius_of(a) + shape::radius_of(b));
    clearance::touching_always_violates(a, b, 0);
}

/// Two points of two skeletons that are too near violate the clearance: the points that are
/// the fractions `s` and `t` along two pieces.
pub proof fn near_points_violate(
    a: ShapeV,
    b: ShapeV,
    min_clr: int,
    p1: Point,
    p2: Point,
    q1: Point,
    q2: Point,
    s: real,
    t: real,
)
    requires
        shape::skeleton(a).len() > 0,
        shape::skeleton(b).len() > 0,
        shape::radius_of(a) >= 0,
        shape::radius_of(b) >= 0,
        min_clr > 0,
        drawn(a, p1, p2),
        drawn(b, q1, q2),
        fraction(s),
        fraction(t),
        ({
            let d = min_clr + shape::radius_of(a) + shape::radius_of(b);
            separation::gap2(p1, p2, q1, q2, s, t) < (d * d) as real
        }),
    ensures
        clearance::violates(a, b, min_clr),
{
    let d = min_clr + shape::radius_of(a) + shape::radius_of(b);
    assert(points_within(p1, p2, q1, q2, d * d));
    clearance_is_the_distance(a, b, min_clr);
}

/// Two numbers whose squares add up to no more than that of a third are no larger than it.
proof fn legs_are_short(x: real, y: real, r: int)
    requires
        x * x + y * y <= (r * r) as real,
        r >= 0,
    ensures
        0 as real - r as real <= x <= r as real,
        0 as real - r as real <= y <= r as real,
{
    let k = r as real;
    precision::int_product(r, r);
    square(x);
    square(y);
    assert(0 as real - k <= x <= k) by (nonlinear_arith)
        requires
            x * x <= k * k,
            k >= 0 as real,
    ;
    assert(0 as real - k <= y <= k) by (nonlinear_arith)
        requires
            y * y <= k * k,
            k >= 0 as real,
    ;
}

/// A point part of the way between two others is within every range that they are in.
proof fn part_way_stays(from: i64, to: i64, t: real, lo: int, hi: int)
    requires
        fraction(t),
        lo <= from <= hi,
        lo <= to <= hi,
    ensures
        lo as real <= from as real + t * ((to - from) as real) <= hi as real,
{
    let d = (to - from) as real;
    if to >= from {
        grow(0 as real, t, d);
        grow(t, 1 as real, d);
    } else {
        let n = 0 as real - d;
        grow(0 as real, t, n);
        grow(t, 1 as real, n);
        assert(t * n == 0 as real - t * d) by (nonlinear_arith)
            requires
                n == 0 as real - d,
        ;
        assert(0 as real * n == 0 as real && 1 as real * n == n) by (nonlinear_arith);
    }
    assert(0 as real * d == 0 as real && 1 as real * d == d) by (nonlinear_arith);
}

proof fn drawn_points_are_corners(s: ShapeV, p: Point, q: Point)
    requires
        drawn(s, p, q),
    ensures
        shape::skeleton(s).contains(p),
        shape::skeleton(s).contains(q),
{
    let v = shape::skeleton(s);
    match s {
        ShapeV::Stroke { .. } => {},
        ShapeV::Polygon { .. } => {},
        ShapeV::Area { rings } => {
            let k = choose|k: int|
                0 <= k < rings.len() && (#[trigger] rings[k]).len() >= 2 && follow_round(
                    rings[k],
                    p,
                    q,
                );
            let ring = rings[k];
            if exists|i: int|
                0 <= i && i + 1 < ring.len() && #[trigger] ring[i] == p && ring[i + 1] == q {
                let i = choose|i: int|
                    0 <= i && i + 1 < ring.len() && #[trigger] ring[i] == p && ring[i + 1] == q;
                interior::vertex_is_listed(rings, rings.len(), k, i);
                interior::vertex_is_listed(rings, rings.len(), k, i + 1);
            } else {
                interior::vertex_is_listed(rings, rings.len(), k, ring.len() - 1);
                interior::vertex_is_listed(rings, rings.len(), k, 0);
            }
        },
    }
}

/// The box of a shape holds every point of its outline, its radius included, and no smaller
/// box does: each side is just the radius beyond some corner of the skeleton.
pub proof fn box_holds_the_outline(s: ShapeV, q: Point, p1: Point, p2: Point, t: real)
    requires
        shape::measurable(s),
        shape::radius_of(s) >= 0,
        drawn(s, p1, p2),
        fraction(t),
        off2(q, p1, p2, t) <= (shape::radius_of(s) * shape::radius_of(s)) as real,
    ensures
        shape::bbox_of(s) matches Some((lo, hi)) && lo.x <= q.x <= hi.x && lo.y <= q.y <= hi.y,
{
    let v = shape::skeleton(s);
    let r = shape::radius_of(s);
    drawn_points_are_corners(s, p1, p2);
    let i = choose|i: int| 0 <= i < v.len() && v[i] == p1;
    let j = choose|j: int| 0 <= j < v.len() && v[j] == p2;
    shape::box_is_tight(v, v.len());
    let (lo, hi) = shape::box_prefix(v, v.len());
    assert(lo.x <= v[i].x <= hi.x && lo.y <= v[i].y <= hi.y);
    assert(lo.x <= v[j].x <= hi.x && lo.y <= v[j].y <= hi.y);
    part_way_stays(p1.x, p2.x, t, lo.x as int, hi.x as int);
    part_way_stays(p1.y, p2.y, t, lo.y as int, hi.y as int);
    let dx = (q.x - p1.x) as real - t * ((p2.x - p1.x) as real);
    let dy = (q.y - p1.y) as real - t * ((p2.y - p1.y) as real);
    legs_are_short(dx, dy, r);
    box_is_grown_by_the_radius(s);
}

/// Each side of the box of a shape is just the radius beyond some corner of the skeleton, and
/// no corner lies beyond that.
pub proof fn box_is_grown_by_the_radius(s: ShapeV)
    requires
        shape::measurable(s),
        shape::radius_of(s) >= 0,
        shape::skeleton(s).len() > 0,
    ensures
        ({
            let v = shape::skeleton(s);
            let r = shape::radius_of(s);
            let (lo, hi) = shape::bbox_of(s)->0;
            &&& shape::bbox_of(s) is Some
            &&& forall|i: int|
                0 <= i < v.len() ==> lo.x + r <= (#[trigger] v[i]).x <= hi.x - r && lo.y + r
                    <= v[i].y <= hi.y - r
            &&& exists|i: int| 0 <= i < v.len() && (#[trigger] v[i]).x == lo.x + r
            &&& exists|i: int| 0 <= i < v.len() && (#[trigger] v[i]).x == hi.x - r
            &&& exists|i: int| 0 <= i < v.len() && (#[trigger] v[i]).y == lo.y + r
            &&& exists|i: int| 0 <= i < v.len() && (#[trigger] v[i]).y == hi.y - r
        }),
{
    let v = shape::skeleton(s);
    let r = shape::radius_of(s);
    shape::box_is_tight(v, v.len());
    let (lo, hi) = shape::box_prefix(v, v.len());
    let a = choose|i: int| 0 <= i < v.len() && (#[trigger] v[i]).x == lo.x;
    let b = choose|i: int| 0 <= i < v.len() && (#[trigger] v[i]).x == hi.x;
    let c = choose|i: int| 0 <= i < v.len() && (#[trigger] v[i]).y == lo.y;
    let d = choose|i: int| 0 <= i < v.len() && (#[trigger] v[i]).y == hi.y;
    assert(limits::pt_safe(v[a]) && limits::pt_safe(v[b]) && limits::pt_safe(v[c])
        && limits::pt_safe(v[d]));
    let (blo, bhi) = shape::bbox_of(s)->0;
    assert(blo.x + r == lo.x && bhi.x - r == hi.x && blo.y + r == lo.y && bhi.y - r == hi.y);
}

} // verus!
