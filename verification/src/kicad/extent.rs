//! How large imported pads and holes are.

use super::footprint;
use super::number;
use super::number::{Num, Ratio, Turn};
use super::primitive;
use super::rounding;
use super::sexp;
use super::sexp::SexpV;
use crate::binary64::Real;
use crate::coord::{Nm, Point};
use crate::geom::limits;
use crate::geom::limits::DEFAULT_CHORD_TOL;
use crate::geom::path;
use crate::geom::path::PathV;
use crate::geom::shape;
use crate::geom::shape::ShapeV;
use crate::part::{Drill, PadLayers};
use crate::precision;
use vstd::arithmetic::power2::*;
use vstd::prelude::*;

verus! {

/// The box is `w` wide and `h` high about `c`, to the nanometres that halving loses: exactly so
/// where both are even.
pub open spec fn boxed(b: Option<(Point, Point)>, c: Point, w: int, h: int) -> bool {
    match b {
        Some((lo, hi)) => {
            &&& lo.x + hi.x == 2 * c.x
            &&& lo.y + hi.y == 2 * c.y
            &&& w - 2 <= hi.x - lo.x <= w
            &&& h - 2 <= hi.y - lo.y <= h
            &&& w % 2 == 0 && h % 2 == 0 ==> hi.x - lo.x == w && hi.y - lo.y == h
        },
        None => false,
    }
}

/// A turn by a multiple of a right angle.
pub open spec fn square_turn(t: Turn) -> bool {
    t == Turn::Still || t == Turn::Quarter || t == Turn::Half || t == Turn::ThreeQuarter
}

/// The turn lays what stood upright.
pub open spec fn lays_down(t: Turn) -> bool {
    t == Turn::Quarter || t == Turn::ThreeQuarter
}

/// The points reach `a` to either side of `c` and `b` above and below it.
spec fn spans(pts: Seq<Point>, c: Point, a: int, b: int) -> bool {
    &&& forall|i: int|
        0 <= i < pts.len() ==> c.x - a <= (#[trigger] pts[i]).x <= c.x + a && c.y - b <= pts[i].y
            <= c.y + b
    &&& exists|i: int| 0 <= i < pts.len() && (#[trigger] pts[i]).x == c.x - a
    &&& exists|i: int| 0 <= i < pts.len() && (#[trigger] pts[i]).x == c.x + a
    &&& exists|i: int| 0 <= i < pts.len() && (#[trigger] pts[i]).y == c.y - b
    &&& exists|i: int| 0 <= i < pts.len() && (#[trigger] pts[i]).y == c.y + b
}

/// A straight path.
spec fn straight(p: PathV) -> bool {
    forall|i: int| 0 <= i < p.segs.len() ==> (#[trigger] p.segs[i]) is Line
}

/// The shape is a straight path with a radius.
spec fn is_straight(s: ShapeV) -> bool {
    !(s is Area) && straight(shape::path_of(s))
}

/// Turning a straight shape turns its corners.
proof fn turned_corners(s: ShapeV, c: Point, t: Turn)
    requires
        is_straight(s),
    ensures
        shape::skeleton(s) == path::corners_of(shape::path_of(s)),
        shape::skeleton(footprint::turned_shape(s, c, t)) == path::corners_of(
            shape::path_of(s),
        ).map_values(|p: Point| number::rotated(p, c, t)),
        shape::radius_of(footprint::turned_shape(s, c, t)) == shape::radius_of(s),
{
    let g = |p: Point| number::rotated(p, c, t);
    let p = shape::path_of(s);
    let q = path::path_map(p, g);
    path::straight_path_is_its_corners(p, DEFAULT_CHORD_TOL as int);
    assert(straight(q)) by {
        assert forall|i: int| 0 <= i < q.segs.len() implies (#[trigger] q.segs[i]) is Line by {
            assert(p.segs[i] is Line);
        }
    }
    path::straight_path_is_its_corners(q, DEFAULT_CHORD_TOL as int);
    let m = path::corners_of(p).map_values(g);
    assert forall|i: int| 0 <= i < m.len() implies path::corners_of(q)[i] == #[trigger] m[i] by {
        if i > 0 {
            assert(p.segs[i - 1] is Line);
        }
    }
    assert(path::corners_of(q) =~= m);
}

/// Points that reach so far about their centre do so lying down after a quarter turn.
proof fn turned_span(pts: Seq<Point>, c: Point, a: int, b: int, t: Turn)
    requires
        spans(pts, c, a, b),
        square_turn(t),
        limits::pt_in_ingest(c),
        0 <= a <= 2_000_000_000,
        0 <= b <= 2_000_000_000,
    ensures
        ({
            let m = pts.map_values(|p: Point| number::rotated(p, c, t));
            if lays_down(t) {
                spans(m, c, b, a)
            } else {
                spans(m, c, a, b)
            }
        }),
{
    let m = pts.map_values(|p: Point| number::rotated(p, c, t));
    let i = choose|i: int| 0 <= i < pts.len() && (#[trigger] pts[i]).x == c.x - a;
    let j = choose|j: int| 0 <= j < pts.len() && (#[trigger] pts[j]).x == c.x + a;
    let k = choose|k: int| 0 <= k < pts.len() && (#[trigger] pts[k]).y == c.y - b;
    let l = choose|l: int| 0 <= l < pts.len() && (#[trigger] pts[l]).y == c.y + b;
    assert forall|n: int| 0 <= n < m.len() implies (#[trigger] m[n]) == number::rotated(
        pts[n],
        c,
        t,
    ) by {}
    assert(m[i] == number::rotated(pts[i], c, t) && m[j] == number::rotated(pts[j], c, t));
    assert(m[k] == number::rotated(pts[k], c, t) && m[l] == number::rotated(pts[l], c, t));
}

/// The box of points that reach so far, grown by a radius.
proof fn box_of_a_span(s: ShapeV, c: Point, a: int, b: int)
    requires
        spans(shape::skeleton(s), c, a, b),
        limits::pt_in_ingest(c),
        0 <= a <= 2_000_000_000,
        0 <= b <= 2_000_000_000,
        0 <= shape::radius_of(s) <= 2_000_000_000,
    ensures
        shape::bbox_of(s) matches Some((lo, hi)) && lo.x == c.x - a - shape::radius_of(s) && hi.x
            == c.x + a + shape::radius_of(s) && lo.y == c.y - b - shape::radius_of(s) && hi.y == c.y
            + b + shape::radius_of(s),
{
    let pts = shape::skeleton(s);
    let i = choose|i: int| 0 <= i < pts.len() && (#[trigger] pts[i]).x == c.x - a;
    let j = choose|j: int| 0 <= j < pts.len() && (#[trigger] pts[j]).x == c.x + a;
    let k = choose|k: int| 0 <= k < pts.len() && (#[trigger] pts[k]).y == c.y - b;
    let l = choose|l: int| 0 <= l < pts.len() && (#[trigger] pts[l]).y == c.y + b;
    shape::box_is_tight(pts, pts.len());
    let (lo, hi) = shape::box_prefix(pts, pts.len());
    assert(lo.x <= pts[i].x && hi.x >= pts[j].x && lo.y <= pts[k].y && hi.y >= pts[l].y);
}

/// A straight shape that reaches so far has, turned, the box of its reach.
proof fn turned_box(s: ShapeV, c: Point, a: int, b: int, t: Turn)
    requires
        is_straight(s),
        spans(path::corners_of(shape::path_of(s)), c, a, b),
        square_turn(t),
        limits::pt_in_ingest(c),
        0 <= a <= 2_000_000_000,
        0 <= b <= 2_000_000_000,
        0 <= shape::radius_of(s) <= 2_000_000_000,
    ensures
        ({
            let r = shape::radius_of(s);
            let (x, y) = if lays_down(t) {
                (b + r, a + r)
            } else {
                (a + r, b + r)
            };
            shape::bbox_of(footprint::turned_shape(s, c, t)) matches Some((lo, hi)) && lo.x == c.x
                - x && hi.x == c.x + x && lo.y == c.y - y && hi.y == c.y + y
        }),
{
    turned_corners(s, c, t);
    turned_span(path::corners_of(shape::path_of(s)), c, a, b, t);
    if lays_down(t) {
        box_of_a_span(footprint::turned_shape(s, c, t), c, b, a);
    } else {
        box_of_a_span(footprint::turned_shape(s, c, t), c, a, b);
    }
}

proof fn rect_spans(c: Point, a: int, b: int, r: i64)
    requires
        limits::pt_in_ingest(c),
        0 <= a <= 1_000_000_000,
        0 <= b <= 1_000_000_000,
    ensures
        ({
            let s = ShapeV::Polygon {
                path: path::polyline_of(shape::rect_corners(c, a, b)),
                radius: r,
            };
            is_straight(s) && spans(path::corners_of(shape::path_of(s)), c, a, b)
        }),
{
    let k = shape::rect_corners(c, a, b);
    let v = path::corners_of(path::polyline_of(k));
    assert(v =~= k);
    assert(v[0].x == c.x - a && v[1].x == c.x + a && v[0].y == c.y - b && v[2].y == c.y + b);
}

proof fn disc_spans(c: Point, r: int)
    ensures
        is_straight(shape::disc_of(c, r)),
        spans(path::corners_of(shape::path_of(shape::disc_of(c, r))), c, 0, 0),
{
    let v = path::corners_of(shape::path_of(shape::disc_of(c, r)));
    assert(v[0] == c);
}

proof fn capsule_spans(c: Point, a: int, b: int, r: int)
    requires
        limits::pt_in_ingest(c),
        0 <= a <= 1_000_000_000,
        0 <= b <= 1_000_000_000,
        a == 0 || b == 0,
    ensures
        ({
            let s = shape::capsule_of(
                Point { x: (c.x - a) as i64, y: (c.y - b) as i64 },
                Point { x: (c.x + a) as i64, y: (c.y + b) as i64 },
                r,
            );
            is_straight(s) && spans(path::corners_of(shape::path_of(s)), c, a, b)
        }),
{
    let s = shape::capsule_of(
        Point { x: (c.x - a) as i64, y: (c.y - b) as i64 },
        Point { x: (c.x + a) as i64, y: (c.y + b) as i64 },
        r,
    );
    let v = path::corners_of(shape::path_of(s));
    assert(v[0].x == c.x - a && v[1].x == c.x + a && v[0].y == c.y - b && v[1].y == c.y + b);
}

/// The shape, turned about `c`, has the box of that size.
spec fn fills(s: ShapeV, c: Point, w: int, h: int, t: Turn) -> bool {
    let b = shape::bbox_of(footprint::turned_shape(s, c, t));
    if lays_down(t) {
        boxed(b, c, h, w)
    } else {
        boxed(b, c, w, h)
    }
}

/// Sizes of a shape that can be measured.
spec fn sized(c: Point, w: int, h: int, t: Turn) -> bool {
    limits::pt_in_ingest(c) && square_turn(t) && 0 <= w <= 1_000_000_000 && 0 <= h <= 1_000_000_000
}

proof fn disc_fills(c: Point, w: int, t: Turn)
    requires
        sized(c, w, w, t),
    ensures
        fills(shape::disc_of(c, path::half(w)), c, w, w, t),
{
    disc_spans(c, path::half(w));
    turned_box(shape::disc_of(c, path::half(w)), c, 0, 0, t);
}

proof fn rect_fills(c: Point, w: int, h: int, k: int, t: Turn)
    requires
        sized(c, w, h, t),
        0 <= k <= path::half(w),
        k <= path::half(h),
    ensures
        fills(
            (ShapeV::Polygon {
                path: path::polyline_of(
                    shape::rect_corners(c, path::half(w) - k, path::half(h) - k),
                ),
                radius: k as i64,
            }),
            c,
            w,
            h,
            t,
        ),
{
    let (a, b) = (path::half(w) - k, path::half(h) - k);
    let s = ShapeV::Polygon {
        path: path::polyline_of(shape::rect_corners(c, a, b)),
        radius: k as i64,
    };
    rect_spans(c, a, b, k as i64);
    turned_box(s, c, a, b, t);
}

proof fn capsule_fills(c: Point, w: int, h: int, t: Turn)
    requires
        sized(c, w, h, t),
    ensures
        w >= h ==> fills(
            shape::capsule_of(
                Point { x: (c.x - path::half(w - h)) as i64, y: c.y },
                Point { x: (c.x + path::half(w - h)) as i64, y: c.y },
                path::half(h),
            ),
            c,
            w,
            h,
            t,
        ),
        h >= w ==> fills(
            shape::capsule_of(
                Point { x: c.x, y: (c.y - path::half(h - w)) as i64 },
                Point { x: c.x, y: (c.y + path::half(h - w)) as i64 },
                path::half(w),
            ),
            c,
            w,
            h,
            t,
        ),
{
    if w >= h {
        let d = path::half(w - h);
        let a = Point { x: (c.x - d) as i64, y: c.y };
        let b = Point { x: (c.x + d) as i64, y: c.y };
        assert(a.y == (c.y - 0) as i64 && b.y == (c.y + 0) as i64);
        capsule_spans(c, d, 0, path::half(h));
        turned_box(shape::capsule_of(a, b, path::half(h)), c, d, 0, t);
    }
    if h >= w {
        let d = path::half(h - w);
        let a = Point { x: c.x, y: (c.y - d) as i64 };
        let b = Point { x: c.x, y: (c.y + d) as i64 };
        assert(a.x == (c.x - 0) as i64 && b.x == (c.x + 0) as i64);
        capsule_spans(c, 0, d, path::half(w));
        turned_box(shape::capsule_of(a, b, path::half(w)), c, 0, d, t);
    }
}

// ---------------------------------------------------------------------------
// Laws.
// ---------------------------------------------------------------------------

/// The copper of a pad that is not custom fills the box of its `(size w h)` about its centre,
/// whichever of the two is larger; a quarter turn lays the box down. A circle is as large as
/// its width.
pub proof fn pad_fills_its_size(
    pad: Seq<SexpV>,
    c: Point,
    t: Turn,
    rs: Seq<(Seq<char>, Num)>,
    size: Seq<SexpV>,
    wide: Seq<char>,
    high: Seq<char>,
)
    requires
        limits::pt_in_ingest(c),
        square_turn(t),
        sexp::child(pad, "size"@) == Some(size),
        sexp::atom_at(size, 1) == Some(wide),
        sexp::atom_at(size, 2) == Some(high),
        sexp::mm(wide) matches Ok(w) && w >= 0,
        sexp::mm(high) matches Ok(h) && h >= 0,
        sexp::atom_at(pad, 3) != Some("custom"@),
        sexp::atom_at(pad, 3) == Some("circle"@) ==> sexp::mm(wide) == sexp::mm(high),
    ensures
        ({
            let (w, h) = (sexp::mm(wide)->Ok_0, sexp::mm(high)->Ok_0);
            footprint::copper_of(pad, c, t, rs) matches Ok(v) && v.len() == 1
                && if lays_down(t) {
                boxed(shape::bbox_of(v[0].shape), c, h, w)
            } else {
                boxed(shape::bbox_of(v[0].shape), c, w, h)
            }
        }),
{
    let (w, h) = (sexp::mm(wide)->Ok_0 as i64, sexp::mm(high)->Ok_0 as i64);
    pad_shape_fills(pad, c, w, h, t, rs);
    assert(sexp::mm(wide)->Ok_0 == w && sexp::mm(high)->Ok_0 == h);
    let v = footprint::pad_shapes(pad, c, w, h, rs)->Ok_0;
    assert(footprint::copper_of(pad, c, t, rs)->Ok_0[0].shape == footprint::turned_shape(
        v[0],
        c,
        t,
    ));
}

proof fn pad_shape_fills(
    pad: Seq<SexpV>,
    c: Point,
    w: Nm,
    h: Nm,
    t: Turn,
    rs: Seq<(Seq<char>, Num)>,
)
    requires
        sized(c, w as int, h as int, t),
        sexp::atom_at(pad, 3) != Some("custom"@),
        sexp::atom_at(pad, 3) == Some("circle"@) ==> w == h,
    ensures
        footprint::pad_shapes(pad, c, w, h, rs) matches Ok(v) && v.len() == 1 && fills(
            v[0],
            c,
            w as int,
            h as int,
            t,
        ),
{
    let kind = sexp::atom_at(pad, 3);
    let (x, y) = (w as int, h as int);
    if kind == Some("circle"@) {
        disc_fills(c, x, t);
    } else if kind == Some("roundrect"@) {
        let r = number::scaled(footprint::smaller(w, h) as int, footprint::ratio_of(pad, rs));
        rect_fills(c, x, y, shape::corner_radius(x, y, r), t);
    } else if kind == Some("oval"@) {
        if w == h {
            disc_fills(c, x, t);
        } else {
            capsule_fills(c, x, y, t);
        }
    } else {
        rect_fills(c, x, y, 0, t);
    }
}

/// The round hole of a pad is as wide as its `(drill d)`.
pub proof fn round_hole_has_its_size(pad: Seq<SexpV>, c: Point, t: Turn, drill: Seq<SexpV>, d: Seq<char>)
    requires
        sexp::child(pad, "drill"@) == Some(drill),
        sexp::atom_at(drill, 1) == Some(d),
        d != "oval"@,
        sexp::mm(d) is Ok,
    ensures
        footprint::drill_of(pad, c, t) matches Ok(Some(Drill::Round { d: x })) && x == sexp::mm(
            d,
        )->Ok_0,
{
}

/// The slot of a pad fills the box of its `(drill oval w h)` about its centre, whichever of the
/// two is larger; a quarter turn lays the box down.
pub proof fn slot_fills_its_size(
    pad: Seq<SexpV>,
    c: Point,
    t: Turn,
    drill: Seq<SexpV>,
    wide: Seq<char>,
    high: Seq<char>,
)
    requires
        limits::pt_in_ingest(c),
        square_turn(t),
        sexp::child(pad, "drill"@) == Some(drill),
        sexp::atom_at(drill, 1) == Some("oval"@),
        sexp::atom_at(drill, 2) == Some(wide),
        sexp::atom_at(drill, 3) == Some(high),
        sexp::mm(wide) matches Ok(w) && w >= 0,
        sexp::mm(high) matches Ok(h) && h >= 0,
    ensures
        ({
            let (w, h) = (sexp::mm(wide)->Ok_0, sexp::mm(high)->Ok_0);
            footprint::drill_of(pad, c, t) matches Ok(Some(Drill::Slot { a, b, d })) && {
                let s = shape::bbox_of(shape::capsule_of(a, b, path::half(d as int)));
                if lays_down(t) {
                    boxed(s, c, h, w)
                } else {
                    boxed(s, c, w, h)
                }
            }
        }),
{
    let (w, h) = (sexp::mm(wide)->Ok_0 as i64, sexp::mm(high)->Ok_0 as i64);
    slot_of_a_size(c, w, h, t);
    assert(sexp::mm(wide)->Ok_0 == w && sexp::mm(high)->Ok_0 == h);
}

proof fn turned_capsule(a: Point, b: Point, r: int, c: Point, t: Turn)
    ensures
        footprint::turned_shape(shape::capsule_of(a, b, r), c, t) == shape::capsule_of(
            number::rotated(a, c, t),
            number::rotated(b, c, t),
            r,
        ),
{
    let s = footprint::turned_shape(shape::capsule_of(a, b, r), c, t);
    let u = shape::capsule_of(number::rotated(a, c, t), number::rotated(b, c, t), r);
    assert(shape::path_of(s).segs =~= shape::path_of(u).segs);
}

proof fn slot_of_a_size(c: Point, w: Nm, h: Nm, t: Turn)
    requires
        sized(c, w as int, h as int, t),
    ensures
        footprint::slot_of(c, w, h, t) matches Drill::Slot { a, b, d } && {
            let s = shape::bbox_of(shape::capsule_of(a, b, path::half(d as int)));
            if lays_down(t) {
                boxed(s, c, h as int, w as int)
            } else {
                boxed(s, c, w as int, h as int)
            }
        },
{
    capsule_fills(c, w as int, h as int, t);
    if w >= h {
        let d = path::half(w - h);
        turned_capsule(
            Point { x: (c.x - d) as i64, y: c.y },
            Point { x: (c.x + d) as i64, y: c.y },
            path::half(h as int),
            c,
            t,
        );
    } else {
        let d = path::half(h - w);
        turned_capsule(
            Point { x: c.x, y: (c.y - d) as i64 },
            Point { x: c.x, y: (c.y + d) as i64 },
            path::half(w as int),
            c,
            t,
        );
    }
}

/// A pin lies where its pad's `(at x y)` says, and is named and numbered by the pad.
pub proof fn pin_lies_where_its_pad_does(
    pad: Seq<SexpV>,
    name: Seq<char>,
    rs: Seq<(Seq<char>, Num)>,
    at: Seq<SexpV>,
    x: Seq<char>,
    y: Seq<char>,
)
    requires
        sexp::child(pad, "at"@) == Some(at),
        sexp::atom_at(at, 1) == Some(x),
        sexp::atom_at(at, 2) == Some(y),
        footprint::pad_pin(pad, name, rs) is Ok,
    ensures
        ({
            let pin = footprint::pad_pin(pad, name, rs)->Ok_0;
            &&& sexp::mm(x) == Ok::<int, Seq<char>>(pin.offset.x as int)
            &&& sexp::mm(y) == Ok::<int, Seq<char>>(pin.offset.y as int)
            &&& pin.name == name
            &&& pin.number == name
        }),
{
}

/// A drilled pad goes through the board; a pad that names the copper of one side only is on
/// that side.
pub proof fn pad_is_on_the_layers_it_names(pad: Seq<SexpV>, l: Seq<SexpV>)
    ensures
        sexp::atom_at(pad, 2) == Some("thru_hole"@) || sexp::atom_at(pad, 2) == Some(
            "np_thru_hole"@,
        ) ==> footprint::layers_of(pad) == PadLayers::Through,
        sexp::atom_at(pad, 2) == Some("smd"@) && sexp::child(pad, "layers"@) == Some(l) && (forall|
            i: int,
        |
            1 <= i < l.len() ==> #[trigger] sexp::atom_at(l, i) == Some("F.Cu"@)
                || sexp::atom_at(l, i) == Some("F.Mask"@) || sexp::atom_at(l, i) == Some(
                "F.Paste"@,
            )) ==> footprint::layers_of(pad) == PadLayers::Top,
        sexp::atom_at(pad, 2) == Some("smd"@) && sexp::child(pad, "layers"@) == Some(l)
            && l.len() > 1 && sexp::atom_at(l, 1) == Some("B.Cu"@) && (forall|i: int|
            1 <= i < l.len() ==> #[trigger] sexp::atom_at(l, i) == Some("B.Cu"@)
                || sexp::atom_at(l, i) == Some("B.Mask"@) || sexp::atom_at(l, i) == Some(
                "B.Paste"@,
            )) ==> footprint::layers_of(pad) == PadLayers::Bottom,
{
    reveal_strlit("thru_hole");
    reveal_strlit("np_thru_hole");
    reveal_strlit("smd");
    reveal_strlit("F.Cu");
    reveal_strlit("F.Mask");
    reveal_strlit("F.Paste");
    reveal_strlit("B.Cu");
    reveal_strlit("B.Mask");
    reveal_strlit("B.Paste");
    assert("smd"@.len() != "thru_hole"@.len() && "smd"@.len() != "np_thru_hole"@.len());
    assert("F.Cu"@[0] == 'F' && "F.Mask"@[0] == 'F' && "F.Paste"@[0] == 'F');
    assert("B.Cu"@[0] == 'B' && "B.Mask"@[0] == 'B' && "B.Paste"@[0] == 'B');
}

/// The copper of a circular pad is as wide and as high as the width of its `(size w h)`.
pub proof fn a_circular_pad_is_as_large_as_its_width(
    pad: Seq<SexpV>,
    c: Point,
    t: Turn,
    rs: Seq<(Seq<char>, Num)>,
    size: Seq<SexpV>,
    wide: Seq<char>,
    high: Seq<char>,
)
    requires
        limits::pt_in_ingest(c),
        square_turn(t),
        sexp::child(pad, "size"@) == Some(size),
        sexp::atom_at(size, 1) == Some(wide),
        sexp::atom_at(size, 2) == Some(high),
        sexp::mm(wide) matches Ok(w) && w >= 0,
        sexp::mm(high) is Ok,
        sexp::atom_at(pad, 3) == Some("circle"@),
    ensures
        footprint::copper_of(pad, c, t, rs) matches Ok(v) && v.len() == 1 && boxed(
            shape::bbox_of(v[0].shape),
            c,
            sexp::mm(wide)->Ok_0,
            sexp::mm(wide)->Ok_0,
        ),
{
    let (w, h) = (sexp::mm(wide)->Ok_0 as i64, sexp::mm(high)->Ok_0 as i64);
    assert(sexp::mm(wide)->Ok_0 == w);
    disc_fills(c, w as int, t);
    let v = footprint::pad_shapes(pad, c, w, h, rs)->Ok_0;
    assert(footprint::copper_of(pad, c, t, rs)->Ok_0[0].shape == footprint::turned_shape(
        v[0],
        c,
        t,
    ));
}

/// The corners of a rounded pad are rounded by its ratio of the smaller side, to a
/// nanometre, up to half of that side.
pub proof fn corners_are_rounded_by_the_ratio(
    pad: Seq<SexpV>,
    c: Point,
    w: Nm,
    h: Nm,
    rs: Seq<(Seq<char>, Num)>,
    x: Real,
)
    requires
        sexp::atom_at(pad, 3) == Some("roundrect"@),
        footprint::ratio_of(pad, rs) == Ratio::Finite(x),
        rounding::is_fraction(x),
        0 as real <= precision::value(x),
        precision::value(x) * (2 as real) <= 1 as real,
        0 <= w <= 1_000_000_000,
        0 <= h <= 1_000_000_000,
    ensures
        footprint::pad_shapes(pad, c, w, h, rs) matches Ok(v) && v.len() == 1 && {
            let side = if w < h {
                w
            } else {
                h
            };
            precision::size(
                shape::radius_of(v[0]) as real - (side as real) * precision::value(x),
            ) <= 1 as real
        },
{
    reveal_strlit("roundrect");
    reveal_strlit("circle");
    assert("roundrect"@.len() == 9 && "circle"@.len() == 6);
    let side = footprint::smaller(w, h) as int;
    rounding::scaling_is_a_product(side, x);
    let r = number::scaled(side, Ratio::Finite(x));
    let k = shape::corner_radius(w as int, h as int, r);
    let (a, b) = (side as real, precision::value(x));
    assert(0 as real <= a * b && (a * b) * (2 as real) <= a) by (nonlinear_arith)
        requires
            0 as real <= a,
            0 as real <= b,
            b * (2 as real) <= 1 as real,
    ;
    assert(precision::size(k as real - a * b) <= 1 as real);
}

/// Without a ratio the corners are rounded by a quarter of the smaller side.
pub proof fn the_ratio_is_a_quarter_by_default(pad: Seq<SexpV>, rs: Seq<(Seq<char>, Num)>)
    requires
        sexp::child_atom(pad, "roundrect_rratio"@, 1) is None,
    ensures
        footprint::ratio_of(pad, rs) matches Ratio::Finite(x) && rounding::is_fraction(x)
            && precision::value(x) * (4 as real) == 1 as real,
{
    let x = footprint::default_ratio()->Finite_0;
    lemma2_to64();
    lemma2_to64_rest();
    lemma_pow2_adds(52, 4_042);
    lemma_pow2_adds(2, 4_094);
    lemma_pow2_pos(4_096);
    lemma_pow2_pos(4_094);
    assert(x.signed() == pow2(52));
    assert(x.units(-4_096) == pow2(4_094));
    let (n, s) = (pow2(4_094) as real, pow2(4_096) as real);
    assert(s == (4 as real) * n);
    assert((n / s) * (4 as real) == 1 as real) by (nonlinear_arith)
        requires
            s == (4 as real) * n,
            n > 0 as real,
    ;
}

proof fn shapes_are_kept(
    l: Seq<SexpV>,
    i: int,
    done: Seq<ShapeV>,
    c: Point,
    rs: Seq<(Seq<char>, Num)>,
    k: int,
)
    requires
        0 <= i <= l.len(),
        0 <= k < done.len(),
        footprint::primitives_from(l, i, done, c, rs) is Ok,
    ensures
        k < footprint::primitives_from(l, i, done, c, rs)->Ok_0.len(),
        footprint::primitives_from(l, i, done, c, rs)->Ok_0[k] == done[k],
    decreases l.len() - i,
{
    if i < l.len() {
        match primitive::primitive_shape(l[i], c, rs) {
            Err(e) => {},
            Ok(Some(s)) => shapes_are_kept(l, i + 1, done.push(s), c, rs, k),
            Ok(None) => shapes_are_kept(l, i + 1, done, c, rs, k),
        }
    }
}

proof fn shape_is_found(
    l: Seq<SexpV>,
    i: int,
    at: int,
    done: Seq<ShapeV>,
    c: Point,
    rs: Seq<(Seq<char>, Num)>,
    s: ShapeV,
)
    requires
        0 <= i <= at < l.len(),
        footprint::primitives_from(l, i, done, c, rs) is Ok,
        primitive::primitive_shape(l[at], c, rs) == Ok::<Option<ShapeV>, Seq<char>>(Some(s)),
    ensures
        footprint::primitives_from(l, i, done, c, rs)->Ok_0.contains(s),
    decreases l.len() - i,
{
    if i == at {
        shapes_are_kept(l, i + 1, done.push(s), c, rs, done.len() as int);
        assert(footprint::primitives_from(l, i, done, c, rs)->Ok_0[done.len() as int] == s);
    } else {
        match primitive::primitive_shape(l[i], c, rs) {
            Err(e) => {},
            Ok(Some(o)) => shape_is_found(l, i + 1, at, done.push(o), c, rs, s),
            Ok(None) => shape_is_found(l, i + 1, at, done, c, rs, s),
        }
    }
}

/// The anchor of the custom pad is a circle.
pub open spec fn has_round_anchor(pad: Seq<SexpV>) -> bool {
    sexp::child(pad, "options"@) matches Some(o) && sexp::child_atom(o, "anchor"@, 1) == Some(
        "circle"@,
    )
}

/// Entry `at` of the pad's primitives draws the shape about `c`.
pub open spec fn draws_at(
    pad: Seq<SexpV>,
    at: int,
    c: Point,
    rs: Seq<(Seq<char>, Num)>,
    s: ShapeV,
) -> bool {
    sexp::child(pad, "primitives"@) matches Some(l) && 1 <= at < l.len()
        && primitive::primitive_shape(l[at], c, rs) == Ok::<Option<ShapeV>, Seq<char>>(Some(s))
}

/// A custom pad is its anchor and every one of its primitives: the anchor fills the size of
/// the pad, or is the largest circle within it.
pub proof fn a_custom_pad_has_its_anchor_and_primitives(
    pad: Seq<SexpV>,
    c: Point,
    w: Nm,
    h: Nm,
    rs: Seq<(Seq<char>, Num)>,
    at: int,
    s: ShapeV,
)
    requires
        sexp::atom_at(pad, 3) == Some("custom"@),
        limits::pt_in_ingest(c),
        0 <= w <= 1_000_000_000,
        0 <= h <= 1_000_000_000,
        footprint::pad_shapes(pad, c, w, h, rs) is Ok,
    ensures
        ({
            let v = footprint::pad_shapes(pad, c, w, h, rs)->Ok_0;
            let side = if w < h {
                w
            } else {
                h
            };
            &&& v.len() > 0
            &&& has_round_anchor(pad) ==> boxed(shape::bbox_of(v[0]), c, side as int, side as int)
            &&& !has_round_anchor(pad) ==> boxed(shape::bbox_of(v[0]), c, w as int, h as int)
            &&& draws_at(pad, at, c, rs, s) ==> v.contains(s)
        }),
{
    reveal_strlit("custom");
    reveal_strlit("circle");
    reveal_strlit("roundrect");
    reveal_strlit("oval");
    assert("custom"@[0] == 'c' && "custom"@[1] == 'u' && "circle"@[1] == 'i');
    assert("custom"@.len() == 6 && "roundrect"@.len() == 9 && "oval"@.len() == 4);
    let v = footprint::pad_shapes(pad, c, w, h, rs)->Ok_0;
    let side = footprint::smaller(w, h) as int;
    disc_fills(c, side, Turn::Still);
    rect_fills(c, w as int, h as int, 0, Turn::Still);
    let anchor = if has_round_anchor(pad) {
        shape::disc_of(c, path::half(side))
    } else {
        shape::rect_of(c, w as int, h as int)
    };
    turned_corners(anchor, c, Turn::Still);
    assert(shape::skeleton(footprint::turned_shape(anchor, c, Turn::Still)) =~= shape::skeleton(
        anchor,
    ));
    match sexp::child(pad, "primitives"@) {
        Some(l) => {
            if l.len() >= 1 {
                shapes_are_kept(l, 1, seq![anchor], c, rs, 0);
                if draws_at(pad, at, c, rs, s) {
                    shape_is_found(l, 1, at, seq![anchor], c, rs, s);
                }
            }
        },
        None => {},
    }
}

} // verus!
