//! What imported graphics look like.

use super::footprint;
use super::number;
use super::number::Num;
use super::primitive;
use super::rounding;
use super::sexp;
use super::sexp::SexpV;
use crate::coord;
use crate::coord::{Nm, Point};
use crate::geom::halving;
use crate::geom::limits;
use crate::geom::limits::DEFAULT_CHORD_TOL;
use crate::geom::path;
use crate::geom::polygon;
use crate::geom::seg;
use crate::geom::shape;
use crate::geom::shape::ShapeV;
use vstd::prelude::*;

verus! {

/// The smaller of two coordinates.
pub open spec fn least(a: Nm, b: Nm) -> Nm {
    if a < b {
        a
    } else {
        b
    }
}

/// The larger of two coordinates.
pub open spec fn most(a: Nm, b: Nm) -> Nm {
    if a < b {
        b
    } else {
        a
    }
}

/// The box of the shape is the box of the two points, grown by `r` on every side.
pub open spec fn spans_grown(s: ShapeV, a: Point, b: Point, r: int) -> bool {
    shape::bbox_of(s) matches Some((lo, hi)) && {
        &&& lo.x == least(a.x, b.x) - r
        &&& lo.y == least(a.y, b.y) - r
        &&& hi.x == most(a.x, b.x) + r
        &&& hi.y == most(a.y, b.y) + r
    }
}

/// A stroke runs from one point to the other and is as wide as its width, to the nanometre
/// that halving loses; without a width nothing is drawn.
pub proof fn a_stroke_is_as_wide_as_its_width(a: Point, b: Point, width: Nm) -> (r: int)
    requires
        limits::pt_in_ingest(a),
        limits::pt_in_ingest(b),
        limits::in_ingest(width as int),
    ensures
        width <= 0 ==> primitive::line_shape(a, b, width) is None,
        width > 0 ==> {
            &&& primitive::line_shape(a, b, width) is Some
            &&& spans_grown(primitive::line_shape(a, b, width)->0, a, b, r)
            &&& width - 1 <= 2 * r <= width
        },
{
    let r = path::half(width as int);
    if width > 0 {
        let s = primitive::line_shape(a, b, width)->0;
        let p = shape::path_of(s);
        path::straight_path_is_its_corners(p, DEFAULT_CHORD_TOL as int);
        let pts = path::corners_of(p);
        assert(pts.len() == 2 && pts[0] == a && pts[1] == b);
        shape::box_is_tight(pts, 2);
    }
    r
}

/// An arc is drawn from its start over its middle to its end, as wide as its width, to the
/// nanometre that halving loses.
pub proof fn an_arc_is_as_wide_as_its_width(a: Point, m: Point, b: Point, width: Nm) -> (r: int)
    requires
        0 <= width,
    ensures
        ({
            let s = shape::arc_of(a, m, b, width as int);
            let v = shape::skeleton(s);
            &&& shape::radius_of(s) == r
            &&& width - 1 <= 2 * r <= width
            &&& v[0] == a
            &&& v.last() == b
            &&& seg::cross(a, m, b) != 0 ==> v.contains(m)
        }),
{
    let s = shape::arc_of(a, m, b, width as int);
    let p = shape::path_of(s);
    let tol = DEFAULT_CHORD_TOL as int;
    halving::an_arc_passes_through_its_middle(a, m, b, tol);
    let pts = path::arc_points(a, m, b, tol);
    reveal_with_fuel(path::flat_prefix, 2);
    assert(path::path_at(p, 0) == a);
    let v = seq![a] + pts;
    assert(path::flat_prefix(p, tol, 1) == v);
    assert(v.last() == pts.last());
    if seg::cross(a, m, b) != 0 {
        let i = choose|i: int| 0 <= i < pts.len() && pts[i] == m;
        assert(v[i + 1] == m);
    }
    path::half(width as int)
}

/// A circle is drawn as a disc about its centre that reaches the other point, to a
/// nanometre.
pub proof fn a_circle_reaches_its_point(c: Point, at: Point, e: Point) -> (r: int)
    requires
        limits::pt_in_ingest(c),
        limits::pt_in_ingest(at),
        limits::pt_in_ingest(e),
        (c.x - e.x) * (c.x - e.x) + (c.y - e.y) * (c.y - e.y) > 1,
    ensures
        primitive::circle_shape(c, at, e) is Some,
        spans_grown(primitive::circle_shape(c, at, e)->0, at, at, r),
        ({
            let d2 = (c.x - e.x) * (c.x - e.x) + (c.y - e.y) * (c.y - e.y);
            (r - 1) * (r - 1) <= d2 <= (r + 1) * (r + 1)
        }),
{
    let r = number::distance(c, e);
    rounding::distance_is_the_distance(c, e);
    let d2 = (c.x - e.x) * (c.x - e.x) + (c.y - e.y) * (c.y - e.y);
    assert(r >= 1) by (nonlinear_arith)
        requires
            1 < d2 <= (r + 1) * (r + 1),
            r >= 0,
    ;
    let (dx, dy) = (c.x - e.x, c.y - e.y);
    assert(r <= 4_000_000_000) by (nonlinear_arith)
        requires
            (r - 1) * (r - 1) <= dx * dx + dy * dy,
            -2_000_000_000 <= dx <= 2_000_000_000,
            -2_000_000_000 <= dy <= 2_000_000_000,
    ;
    let s = primitive::circle_shape(c, at, e)->0;
    let p = shape::path_of(s);
    path::straight_path_is_its_corners(p, DEFAULT_CHORD_TOL as int);
    let pts = path::corners_of(p);
    assert(pts.len() == 1 && pts[0] == at);
    shape::box_is_tight(pts, 1);
    r
}

/// A rectangle spans its two corners and covers all between them.
pub proof fn a_rectangle_spans_its_corners(a: Point, b: Point)
    requires
        limits::pt_in_ingest(a),
        limits::pt_in_ingest(b),
    ensures
        ({
            let s = shape::polygon_of(primitive::corners(a, b));
            let area = polygon::area2(shape::skeleton(s));
            let (w, h) = (b.x - a.x, b.y - a.y);
            &&& spans_grown(s, a, b, 0)
            &&& area == 2 * (w * h) || area == -2 * (w * h)
        }),
{
    let v = primitive::corners(a, b);
    let s = shape::polygon_of(v);
    let p = shape::path_of(s);
    path::straight_path_is_its_corners(p, DEFAULT_CHORD_TOL as int);
    let pts = path::corners_of(p);
    assert(pts =~= v);
    shape::box_is_tight(v, 4);
    assert(v[0] == a && v[2] == b);
    let (w, h) = (b.x - a.x, b.y - a.y);
    let (ax, ay, bx, by) = (a.x as int, a.y as int, b.x as int, b.y as int);
    reveal_with_fuel(polygon::area2_prefix, 6);
    assert((ax * ay - bx * ay) + (bx * by - bx * ay) + (bx * by - ax * by) + (ax * ay - ax * by)
        == 2 * (w * h)) by (nonlinear_arith)
        requires
            w == bx - ax,
            h == by - ay,
    ;
}

/// A polygon has the points that are listed, in their order.
pub proof fn a_polygon_has_its_points(pts: Seq<Point>)
    ensures
        pts.len() < 3 ==> primitive::poly_shape(pts) is None,
        pts.len() >= 3 ==> primitive::poly_shape(pts) is Some && shape::skeleton(
            primitive::poly_shape(pts)->0,
        ) == pts,
{
    if pts.len() >= 3 {
        let s = primitive::poly_shape(pts)->0;
        let p = shape::path_of(s);
        path::straight_path_is_its_corners(p, DEFAULT_CHORD_TOL as int);
        assert(path::corners_of(p) =~= pts);
    }
}

/// How many of the entries from `i` on are points.
pub open spec fn point_count(l: Seq<SexpV>, i: int) -> int
    decreases l.len() - i,
{
    if i < 0 || i >= l.len() {
        0
    } else if sexp::headed(l[i], "xy"@) is Some {
        1 + point_count(l, i + 1)
    } else {
        point_count(l, i + 1)
    }
}

/// Every point of a list is read: the entry at `k` is the point behind those before it.
pub proof fn every_listed_point_is_read(l: Seq<SexpV>, i: int, k: int)
    requires
        0 <= i <= k < l.len(),
        primitive::points_from(l, i) is Ok,
        sexp::headed(l[k], "xy"@) is Some,
    ensures
        ({
            let v = primitive::points_from(l, i)->Ok_0;
            let at = point_count(l, i) - point_count(l, k);
            &&& 0 <= at < v.len()
            &&& v.len() == point_count(l, i)
            &&& sexp::atom_at(sexp::headed(l[k], "xy"@)->0, 1) is Some
            &&& sexp::atom_at(sexp::headed(l[k], "xy"@)->0, 2) is Some
            &&& sexp::mm(sexp::atom_at(sexp::headed(l[k], "xy"@)->0, 1)->0) matches Ok(x) && v[at].x
                == x as i64
            &&& sexp::mm(sexp::atom_at(sexp::headed(l[k], "xy"@)->0, 2)->0) matches Ok(y) && v[at].y
                == y as i64
        }),
    decreases l.len() - i,
{
    points_are_counted(l, i);
    points_are_counted(l, k);
    if i < k {
        every_listed_point_is_read(l, i + 1, k);
        if sexp::headed(l[i], "xy"@) is Some {
            let rest = primitive::points_from(l, i + 1)->Ok_0;
            let v = primitive::points_from(l, i)->Ok_0;
            let at = point_count(l, i + 1) - point_count(l, k);
            assert(v[at + 1] == rest[at]);
        }
    }
}

proof fn points_are_counted(l: Seq<SexpV>, i: int)
    requires
        0 <= i <= l.len(),
    ensures
        point_count(l, i) >= 0,
        primitive::points_from(l, i) matches Ok(v) ==> v.len() == point_count(l, i),
    decreases l.len() - i,
{
    if i < l.len() {
        points_are_counted(l, i + 1);
    }
}

/// The point moved by an offset.
pub open spec fn moved(by: Point, p: Point) -> Point {
    Point { x: (by.x + p.x) as i64, y: (by.y + p.y) as i64 }
}

/// The shape with every point moved by an offset.
pub open spec fn drawn_at(s: ShapeV, by: Point) -> ShapeV {
    shape::shape_map(s, |p: Point| moved(by, p))
}

/// The primitive is an arc that is given by an angle.
pub open spec fn is_swept(prim: SexpV) -> bool {
    prim matches SexpV::List(l) && sexp::atom_at(l, 0) == Some("gr_arc"@) && primitive::xy(
        l,
        "mid"@,
    ) == Ok::<Option<Point>, Seq<char>>(None)
}

/// The primitives of a pad are drawn about the pad's centre: what is drawn about a centre is
/// what is drawn about the origin, moved there.
pub proof fn primitives_are_drawn_about_the_centre(
    prim: SexpV,
    center: Point,
    rs: Seq<(Seq<char>, Num)>,
)
    requires
        !is_swept(prim),
    ensures
        match primitive::primitive_shape(prim, Point { x: 0, y: 0 }, rs) {
            Err(e) => primitive::primitive_shape(prim, center, rs) == Err::<
                Option<ShapeV>,
                Seq<char>,
            >(e),
            Ok(None) => primitive::primitive_shape(prim, center, rs) == Ok::<
                Option<ShapeV>,
                Seq<char>,
            >(None),
            Ok(Some(s)) => primitive::primitive_shape(prim, center, rs) == Ok::<
                Option<ShapeV>,
                Seq<char>,
            >(Some(drawn_at(s, center))),
        },
{
    let o = Point { x: 0, y: 0 };
    assert forall|p: Point| #[trigger] primitive::about(o, p) == p by {}
    assert forall|p: Point| #[trigger] primitive::about(center, p) == moved(center, p) by {}
    reveal(primitive::arc_shape);
    if let SexpV::List(list) = prim {
        match primitive::primitive_shape(prim, o, rs) {
            Ok(Some(s)) => {
                match primitive::primitive_shape(prim, center, rs) {
                    Ok(Some(t)) => {
                        assert(shape::path_of(t).segs =~= shape::path_of(
                            drawn_at(s, center),
                        ).segs);
                    },
                    _ => {},
                }
            },
            _ => {},
        }
    }
}

/// A text is turned as its angle says: its orientation takes a point where the turn about the
/// origin takes it.
pub proof fn a_text_is_turned_by_its_angle(n: Num, p: Point)
    requires
        n.turn is Still || n.turn is Quarter || n.turn is Half || n.turn is ThreeQuarter,
        limits::pt_exact(p),
    ensures
        coord::turned(footprint::text_orient(Some(n)), p) == number::rotated(
            p,
            Point { x: 0, y: 0 },
            n.turn,
        ),
{
    coord::quarter_turns_are_exact(p);
}

} // verus!
