//! Graphic primitives: points, widths, arcs and the shapes built from them.

use super::number;
use super::number::{dist_nm, rotate_point, Num, Readings};
use super::sexp;
use super::sexp::{find_child, find_child_atom, mm_to_nm, nth_atom, Sexp, SexpV};
use crate::coord::{Nm, Point};
use crate::geom::limits;
use crate::geom::path;
use crate::geom::shape;
use crate::geom::shape::{Shape2D, ShapeV};
use crate::text::{cat, str_eq};
use vstd::prelude::*;

verus! {

/// A result and its value agree, errors by their text.
pub open spec fn agree<T>(r: Result<T, String>, w: Result<T, Seq<char>>) -> bool {
    match (r, w) {
        (Ok(a), Ok(b)) => a == b,
        (Err(e), Err(m)) => e@ == m,
        _ => false,
    }
}

/// The same for results with a view.
pub open spec fn agree_view<T: View>(r: Result<T, String>, w: Result<T::V, Seq<char>>) -> bool {
    match (r, w) {
        (Ok(a), Ok(b)) => a@ == b,
        (Err(e), Err(m)) => e@ == m,
        _ => false,
    }
}

/// The same for optional shapes.
pub open spec fn agree_shape(
    r: Result<Option<Shape2D>, String>,
    w: Result<Option<ShapeV>, Seq<char>>,
) -> bool {
    match (r, w) {
        (Ok(Some(a)), Ok(Some(b))) => a@ == b,
        (Ok(None), Ok(None)) => true,
        (Err(e), Err(m)) => e@ == m,
        _ => false,
    }
}

// ---------------------------------------------------------------------------
// Points and widths.
// ---------------------------------------------------------------------------

/// The number at position `i` of a list, or the complaint that it is missing.
pub open spec fn number_at(l: Seq<SexpV>, i: int, missing: Seq<char>) -> Result<Nm, Seq<char>> {
    match sexp::atom_at(l, i) {
        None => Err(missing),
        Some(a) => match sexp::mm(a) {
            Ok(v) => Ok(v as i64),
            Err(e) => Err(e),
        },
    }
}

/// The point at positions 1 and 2 of a list.
pub open spec fn point_at(l: Seq<SexpV>, no_x: Seq<char>, no_y: Seq<char>) -> Result<
    Point,
    Seq<char>,
> {
    match number_at(l, 1, no_x) {
        Err(e) => Err(e),
        Ok(x) => match number_at(l, 2, no_y) {
            Err(e) => Err(e),
            Ok(y) => Ok(Point { x, y }),
        },
    }
}

/// The point of the child `(head x y)`, if there is one.
pub open spec fn xy(list: Seq<SexpV>, head: Seq<char>) -> Result<Option<Point>, Seq<char>> {
    match sexp::child(list, head) {
        None => Ok(None),
        Some(l) => match point_at(l, head + " missing x"@, head + " missing y"@) {
            Ok(p) => Ok(Some(p)),
            Err(e) => Err(e),
        },
    }
}

/// The point of the child `(head x y)`, or the complaint that there is none.
pub open spec fn needed(list: Seq<SexpV>, head: Seq<char>, missing: Seq<char>) -> Result<
    Point,
    Seq<char>,
> {
    match xy(list, head) {
        Err(e) => Err(e),
        Ok(None) => Err(missing),
        Ok(Some(p)) => Ok(p),
    }
}

/// Two needed points.
#[verifier::opaque]
pub open spec fn two_needed(
    list: Seq<SexpV>,
    a: Seq<char>,
    no_a: Seq<char>,
    b: Seq<char>,
    no_b: Seq<char>,
) -> Result<(Point, Point), Seq<char>> {
    match needed(list, a, no_a) {
        Err(e) => Err(e),
        Ok(p) => match needed(list, b, no_b) {
            Err(e) => Err(e),
            Ok(q) => Ok((p, q)),
        },
    }
}

/// A length that counts only when it is well spelled.
pub open spec fn soft_length(a: Option<Seq<char>>) -> Option<Nm> {
    match a {
        Some(s) => match sexp::mm(s) {
            Ok(v) => Some(v as i64),
            Err(_) => None,
        },
        None => None,
    }
}

/// The line width `(width w)`, zero when there is none.
pub open spec fn width_of(list: Seq<SexpV>) -> Nm {
    match soft_length(sexp::child_atom(list, "width"@, 1)) {
        Some(w) => w,
        None => 0,
    }
}

/// The line width of a footprint graphic: `(stroke (width w))`, else `(width w)`.
pub open spec fn stroke_width_of(list: Seq<SexpV>) -> Nm {
    match sexp::child(list, "stroke"@) {
        Some(st) => match soft_length(sexp::child_atom(st, "width"@, 1)) {
            Some(w) => w,
            None => width_of(list),
        },
        None => width_of(list),
    }
}

/// The points of the `(xy x y)` entries from `i` on.
pub open spec fn points_from(l: Seq<SexpV>, i: int) -> Result<Seq<Point>, Seq<char>>
    decreases l.len() - i,
{
    if i < 0 || i >= l.len() {
        Ok(Seq::empty())
    } else {
        match sexp::headed(l[i], "xy"@) {
            None => points_from(l, i + 1),
            Some(e) => match point_at(e, "xy missing x"@, "xy missing y"@) {
                Err(e) => Err(e),
                Ok(p) => match points_from(l, i + 1) {
                    Err(e) => Err(e),
                    Ok(rest) => Ok(seq![p] + rest),
                },
            },
        }
    }
}

/// The points of the child `(pts …)`.
#[verifier::opaque]
pub open spec fn points_of(list: Seq<SexpV>) -> Result<Seq<Point>, Seq<char>> {
    match sexp::child(list, "pts"@) {
        None => Ok(Seq::empty()),
        Some(l) => points_from(l, 1),
    }
}

/// The number at position `i` of a list.
pub fn read_number(l: &Vec<Sexp>, i: usize, missing: &str) -> (r: Result<Nm, String>)
    ensures
        agree(r, number_at(sexp::node_views(l@), i as int, missing@)),
        r is Ok ==> limits::in_ingest(r->Ok_0 as int),
{
    match nth_atom(l, i) {
        None => Err(missing.to_owned()),
        Some(a) => mm_to_nm(a),
    }
}

/// The point at positions 1 and 2 of a list.
pub fn read_point(l: &Vec<Sexp>, no_x: &str, no_y: &str) -> (r: Result<Point, String>)
    ensures
        agree(r, point_at(sexp::node_views(l@), no_x@, no_y@)),
        r is Ok ==> limits::pt_in_ingest(r->Ok_0),
{
    match read_number(l, 1, no_x) {
        Err(e) => Err(e),
        Ok(x) => match read_number(l, 2, no_y) {
            Err(e) => Err(e),
            Ok(y) => Ok(Point { x, y }),
        },
    }
}

/// The point of the child `(head x y)`, if there is one.
pub fn prim_xy(list: &Vec<Sexp>, head: &str) -> (r: Result<Option<Point>, String>)
    ensures
        agree(r, xy(sexp::node_views(list@), head@)),
        r matches Ok(Some(p)) ==> limits::pt_in_ingest(p),
{
    match find_child(list, head) {
        None => Ok(None),
        Some(l) => {
            let no_x = cat(head, " missing x");
            let no_y = cat(head, " missing y");
            match read_point(l, no_x.as_str(), no_y.as_str()) {
                Ok(p) => Ok(Some(p)),
                Err(e) => Err(e),
            }
        },
    }
}

/// The point of the child `(head x y)`, or the complaint that there is none.
pub fn need_xy(list: &Vec<Sexp>, head: &str, missing: &str) -> (r: Result<Point, String>)
    ensures
        agree(r, needed(sexp::node_views(list@), head@, missing@)),
        r is Ok ==> limits::pt_in_ingest(r->Ok_0),
{
    match prim_xy(list, head) {
        Err(e) => Err(e),
        Ok(None) => Err(missing.to_owned()),
        Ok(Some(p)) => Ok(p),
    }
}

fn need_two(list: &Vec<Sexp>, a: &str, no_a: &str, b: &str, no_b: &str) -> (r: Result<
    (Point, Point),
    String,
>)
    ensures
        agree(r, two_needed(sexp::node_views(list@), a@, no_a@, b@, no_b@)),
        r is Ok ==> limits::pt_in_ingest((r->Ok_0).0) && limits::pt_in_ingest((r->Ok_0).1),
{
    proof {
        reveal(two_needed);
    }
    match need_xy(list, a, no_a) {
        Err(e) => Err(e),
        Ok(p) => match need_xy(list, b, no_b) {
            Err(e) => Err(e),
            Ok(q) => Ok((p, q)),
        },
    }
}

/// A length that counts only when it is well spelled.
pub fn read_soft(a: Option<&str>) -> (r: Option<Nm>)
    ensures
        r == soft_length(sexp::opt_text(a)),
        r is Some ==> limits::in_ingest(r->0 as int),
{
    match a {
        Some(s) => match mm_to_nm(s) {
            Ok(v) => Some(v),
            Err(_) => None,
        },
        None => None,
    }
}

fn prim_width(list: &Vec<Sexp>) -> (r: Nm)
    ensures
        r == width_of(sexp::node_views(list@)),
        limits::in_ingest(r as int),
{
    match read_soft(find_child_atom(list, "width", 1)) {
        Some(w) => w,
        None => 0,
    }
}

fn graphic_width(list: &Vec<Sexp>) -> (r: Nm)
    ensures
        r == stroke_width_of(sexp::node_views(list@)),
        limits::in_ingest(r as int),
{
    match find_child(list, "stroke") {
        Some(st) => match read_soft(find_child_atom(st, "width", 1)) {
            Some(w) => w,
            None => prim_width(list),
        },
        None => prim_width(list),
    }
}

spec fn points_after(done: Seq<Point>, rest: Result<Seq<Point>, Seq<char>>) -> Result<
    Seq<Point>,
    Seq<char>,
> {
    match rest {
        Ok(r) => Ok(done + r),
        Err(e) => Err(e),
    }
}

/// The points of the child `(pts …)`.
fn prim_pts(list: &Vec<Sexp>) -> (r: Result<Vec<Point>, String>)
    ensures
        agree_view(r, points_of(sexp::node_views(list@))),
        r is Ok ==> forall|i: int|
            0 <= i < r->Ok_0@.len() ==> limits::pt_in_ingest(#[trigger] r->Ok_0@[i]),
{
    let mut out: Vec<Point> = Vec::new();
    proof {
        reveal(points_of);
    }
    let l = match find_child(list, "pts") {
        None => {
            assert(out@ =~= Seq::empty());
            return Ok(out);
        },
        Some(l) => l,
    };
    let ghost v = sexp::node_views(l@);
    let mut i: usize = 1;
    proof {
        match points_from(v, 1) {
            Ok(w) => {
                assert(Seq::<Point>::empty() + w =~= w);
            },
            Err(e) => {},
        }
    }
    while i < l.len()
        invariant
            1 <= i <= l.len(),
            v == sexp::node_views(l@),
            sexp::child(sexp::node_views(list@), "pts"@) == Some(v),
            points_from(v, 1) == points_after(out@, points_from(v, i as int)),
            points_of(sexp::node_views(list@)) == points_from(v, 1),
            forall|k: int| 0 <= k < out.len() ==> limits::pt_in_ingest(#[trigger] out@[k]),
        decreases l.len() - i,
    {
        assert(v[i as int] == l@[i as int]@);
        if let Some(e) = l[i].list_headed("xy") {
            let ghost done = out@;
            match read_point(e, "xy missing x", "xy missing y") {
                Ok(p) => {
                    out.push(p);
                    proof {
                        match points_from(v, i + 1) {
                            Ok(rest) => {
                                assert(done + (seq![p] + rest) =~= out@ + rest);
                            },
                            Err(e) => {},
                        }
                    }
                },
                Err(e) => {
                    return Err(e);
                },
            }
        }
        i += 1;
    }
    assert(out@ + Seq::<Point>::empty() =~= out@);
    Ok(out)
}

// ---------------------------------------------------------------------------
// Arcs.
// ---------------------------------------------------------------------------

/// A point given about a centre.
pub open spec fn about(c: Point, p: Point) -> Point {
    Point { x: (c.x + p.x) as i64, y: (c.y + p.y) as i64 }
}

/// The start, middle and end of an arc, about a centre: given by three points, or by the
/// arc's own centre, its start and the swept angle.
pub open spec fn arc_points(list: Seq<SexpV>, center: Point, rs: Seq<(Seq<char>, Num)>) -> Result<
    (Point, Point, Point),
    Seq<char>,
> {
    match two_needed(
        list,
        "start"@,
        "gr_arc missing (start …)"@,
        "end"@,
        "gr_arc missing (end …)"@,
    ) {
        Err(e) => Err(e),
        Ok((s, e)) => match xy(list, "mid"@) {
            Err(e) => Err(e),
            Ok(Some(m)) => Ok((about(center, s), about(center, m), about(center, e))),
            Ok(None) => match number::opt_meaning(rs, sexp::child_atom(list, "angle"@, 1)) {
                Some(n) => {
                    let c = about(center, s);
                    let p = about(center, e);
                    Ok((p, number::rotated(p, c, n.half_turn), number::rotated(p, c, n.turn)))
                },
                None => Err("gr_arc needs either (mid …) or (angle …)"@),
            },
        },
    }
}

fn offset(c: Point, p: Point) -> (r: Point)
    requires
        limits::pt_in_ingest(c),
        limits::pt_in_ingest(p),
    ensures
        r == about(c, p),
{
    Point { x: c.x + p.x, y: c.y + p.y }
}

/// What an optional spelling means.
pub fn read_meaning(rs: &Readings, a: Option<&str>) -> (r: Option<Num>)
    requires
        number::readable(rs@),
    ensures
        r == number::opt_meaning(rs@, sexp::opt_text(a)),
        r is Some ==> r->0.ok(),
{
    match a {
        Some(s) => rs.find(s),
        None => None,
    }
}

/// The start, middle and end of an arc.
pub fn gr_arc_points(list: &Vec<Sexp>, center: Point, rs: &Readings) -> (r: Result<
    (Point, Point, Point),
    String,
>)
    requires
        limits::pt_in_ingest(center),
        number::readable(rs@),
    ensures
        agree(r, arc_points(sexp::node_views(list@), center, rs@)),
{
    match need_two(list, "start", "gr_arc missing (start …)", "end", "gr_arc missing (end …)") {
        Err(e) => Err(e),
        Ok((s, e)) => match prim_xy(list, "mid") {
            Err(e) => Err(e),
            Ok(Some(m)) => Ok((offset(center, s), offset(center, m), offset(center, e))),
            Ok(None) => match read_meaning(rs, find_child_atom(list, "angle", 1)) {
                Some(n) => {
                    let c = offset(center, s);
                    let p = offset(center, e);
                    Ok((p, rotate_point(p, c, n.half_turn), rotate_point(p, c, n.turn)))
                },
                None => Err("gr_arc needs either (mid …) or (angle …)".to_owned()),
            },
        },
    }
}

// ---------------------------------------------------------------------------
// Shapes.
// ---------------------------------------------------------------------------

/// A filled circle from a centre through a point; nothing when they coincide.
pub open spec fn circle_shape(c: Point, at: Point, e: Point) -> Option<ShapeV> {
    let r = number::distance(c, e);
    if r > 0 {
        Some(shape::disc_of(at, r))
    } else {
        None
    }
}

/// A straight stroke; nothing without a width.
pub open spec fn line_shape(s: Point, e: Point, width: Nm) -> Option<ShapeV> {
    if width > 0 {
        Some(shape::capsule_of(s, e, path::half(width as int)))
    } else {
        None
    }
}

/// The corners of the rectangle between two opposite corners.
pub open spec fn corners(s: Point, e: Point) -> Seq<Point> {
    seq![s, Point { x: e.x, y: s.y }, e, Point { x: s.x, y: e.y }]
}

/// Points given about a centre.
pub open spec fn all_about(c: Point, pts: Seq<Point>) -> Seq<Point> {
    Seq::new(pts.len(), |i: int| about(c, pts[i]))
}

/// A filled polygon; nothing with fewer than three corners.
pub open spec fn poly_shape(pts: Seq<Point>) -> Option<ShapeV> {
    if pts.len() >= 3 {
        Some(shape::polygon_of(pts))
    } else {
        None
    }
}

/// An arc stroke; nothing without a width.
#[verifier::opaque]
pub open spec fn arc_shape(
    list: Seq<SexpV>,
    center: Point,
    width: Nm,
    rs: Seq<(Seq<char>, Num)>,
) -> Result<Option<ShapeV>, Seq<char>> {
    if width <= 0 {
        Ok(None)
    } else {
        match arc_points(list, center, rs) {
            Ok((s, m, e)) => Ok(Some(shape::arc_of(s, m, e, width as int))),
            Err(e) => Err(e),
        }
    }
}

/// The shape of one primitive of a custom pad, about the pad's centre.
pub open spec fn primitive_shape(
    prim: SexpV,
    center: Point,
    rs: Seq<(Seq<char>, Num)>,
) -> Result<Option<ShapeV>, Seq<char>> {
    match prim {
        SexpV::Atom(_) => Ok(None),
        SexpV::List(list) => {
            let head = sexp::atom_at(list, 0);
            if head == Some("gr_circle"@) {
                match two_needed(
                    list,
                    "center"@,
                    "gr_circle missing (center …)"@,
                    "end"@,
                    "gr_circle missing (end …)"@,
                ) {
                    Ok((c, e)) => Ok(circle_shape(c, about(center, c), e)),
                    Err(e) => Err(e),
                }
            } else if head == Some("gr_line"@) {
                match two_needed(
                    list,
                    "start"@,
                    "gr_line missing (start …)"@,
                    "end"@,
                    "gr_line missing (end …)"@,
                ) {
                    Ok((s, e)) => Ok(
                        line_shape(about(center, s), about(center, e), width_of(list)),
                    ),
                    Err(e) => Err(e),
                }
            } else if head == Some("gr_rect"@) {
                match two_needed(
                    list,
                    "start"@,
                    "gr_rect missing (start …)"@,
                    "end"@,
                    "gr_rect missing (end …)"@,
                ) {
                    Ok((s, e)) => Ok(Some(shape::polygon_of(all_about(center, corners(s, e))))),
                    Err(e) => Err(e),
                }
            } else if head == Some("gr_poly"@) {
                match points_of(list) {
                    Ok(pts) => Ok(poly_shape(all_about(center, pts))),
                    Err(e) => Err(e),
                }
            } else if head == Some("gr_arc"@) {
                arc_shape(list, center, width_of(list), rs)
            } else {
                Ok(None)
            }
        },
    }
}

/// The shape of one footprint graphic.
pub open spec fn graphic_shape(list: Seq<SexpV>, rs: Seq<(Seq<char>, Num)>) -> Result<
    Option<ShapeV>,
    Seq<char>,
> {
    let head = sexp::atom_at(list, 0);
    if head == Some("fp_line"@) {
        match two_needed(
            list,
            "start"@,
            "fp_line missing (start …)"@,
            "end"@,
            "fp_line missing (end …)"@,
        ) {
            Ok((s, e)) => Ok(line_shape(s, e, stroke_width_of(list))),
            Err(e) => Err(e),
        }
    } else if head == Some("fp_arc"@) {
        arc_shape(list, Point { x: 0, y: 0 }, stroke_width_of(list), rs)
    } else if head == Some("fp_circle"@) {
        match two_needed(
            list,
            "center"@,
            "fp_circle missing (center …)"@,
            "end"@,
            "fp_circle missing (end …)"@,
        ) {
            Ok((c, e)) => Ok(circle_shape(c, c, e)),
            Err(e) => Err(e),
        }
    } else if head == Some("fp_rect"@) {
        match two_needed(
            list,
            "start"@,
            "fp_rect missing (start …)"@,
            "end"@,
            "fp_rect missing (end …)"@,
        ) {
            Ok((s, e)) => Ok(Some(shape::polygon_of(corners(s, e)))),
            Err(e) => Err(e),
        }
    } else if head == Some("fp_poly"@) {
        match points_of(list) {
            Ok(pts) => Ok(poly_shape(pts)),
            Err(e) => Err(e),
        }
    } else {
        Ok(None)
    }
}

/// The shape and the layer of one footprint graphic; nothing without both.
pub open spec fn fp_graphic(item: SexpV, rs: Seq<(Seq<char>, Num)>) -> Result<
    Option<(ShapeV, Seq<char>)>,
    Seq<char>,
> {
    match item {
        SexpV::Atom(_) => Ok(None),
        SexpV::List(list) => match graphic_shape(list, rs) {
            Err(e) => Err(e),
            Ok(s) => match (s, sexp::child_atom(list, "layer"@, 1)) {
                (Some(s), Some(l)) => Ok(Some((s, l))),
                _ => Ok(None),
            },
        },
    }
}

fn circle(c: Point, at: Point, e: Point) -> (r: Option<Shape2D>)
    ensures
        match (r, circle_shape(c, at, e)) {
            (Some(a), Some(b)) => a@ == b,
            (None, None) => true,
            _ => false,
        },
{
    let r: Nm = dist_nm(c, e);
    if r > 0 {
        Some(Shape2D::disc(at, r))
    } else {
        None
    }
}

fn line(s: Point, e: Point, width: Nm) -> (r: Option<Shape2D>)
    ensures
        match (r, line_shape(s, e, width)) {
            (Some(a), Some(b)) => a@ == b,
            (None, None) => true,
            _ => false,
        },
{
    if width > 0 {
        Some(Shape2D::capsule(s, e, width / 2))
    } else {
        None
    }
}

fn rect_corners(s: Point, e: Point) -> (r: Vec<Point>)
    ensures
        r@ == corners(s, e),
        r.len() == 4,
{
    let v = vec![s, Point { x: e.x, y: s.y }, e, Point { x: s.x, y: e.y }];
    assert(v@ =~= corners(s, e));
    v
}

fn offset_all(c: Point, pts: &Vec<Point>) -> (r: Vec<Point>)
    requires
        limits::pt_in_ingest(c),
        forall|i: int| 0 <= i < pts.len() ==> limits::pt_in_ingest(#[trigger] pts@[i]),
    ensures
        r@ == all_about(c, pts@),
        r.len() == pts.len(),
{
    let mut out: Vec<Point> = Vec::new();
    let mut i: usize = 0;
    while i < pts.len()
        invariant
            i <= pts.len(),
            limits::pt_in_ingest(c),
            forall|k: int| 0 <= k < pts.len() ==> limits::pt_in_ingest(#[trigger] pts@[k]),
            out.len() == i,
            forall|k: int| 0 <= k < i ==> #[trigger] out@[k] == about(c, pts@[k]),
        decreases pts.len() - i,
    {
        out.push(offset(c, pts[i]));
        i += 1;
    }
    assert(out@ =~= all_about(c, pts@));
    out
}

fn poly(pts: Vec<Point>) -> (r: Option<Shape2D>)
    ensures
        match (r, poly_shape(pts@)) {
            (Some(a), Some(b)) => a@ == b,
            (None, None) => true,
            _ => false,
        },
{
    if pts.len() >= 3 {
        Some(Shape2D::polygon(pts))
    } else {
        None
    }
}

fn arc(list: &Vec<Sexp>, center: Point, width: Nm, rs: &Readings) -> (r: Result<
    Option<Shape2D>,
    String,
>)
    requires
        limits::pt_in_ingest(center),
        number::readable(rs@),
    ensures
        agree_shape(r, arc_shape(sexp::node_views(list@), center, width, rs@)),
{
    proof {
        reveal(arc_shape);
    }
    if width <= 0 {
        return Ok(None);
    }
    match gr_arc_points(list, center, rs) {
        Ok((s, m, e)) => Ok(Some(Shape2D::arc(s, m, e, width))),
        Err(e) => Err(e),
    }
}

/// Is the head of the list `head`?
pub fn head_is(list: &Vec<Sexp>, head: &str) -> (r: bool)
    ensures
        r == (sexp::atom_at(sexp::node_views(list@), 0) == Some(head@)),
{
    match nth_atom(list, 0) {
        Some(a) => str_eq(a, head),
        None => false,
    }
}

/// The shape of one primitive of a custom pad, about the pad's centre. Text and other
/// kinds give nothing.
#[verifier::spinoff_prover]
#[verifier::rlimit(40)]
pub fn parse_primitive(prim: &Sexp, center: Point, rs: &Readings) -> (r: Result<
    Option<Shape2D>,
    String,
>)
    requires
        limits::pt_in_ingest(center),
        number::readable(rs@),
    ensures
        agree_shape(r, primitive_shape(prim@, center, rs@)),
{
    let list = match prim.as_list() {
        Some(l) => l,
        None => {
            return Ok(None);
        },
    };
    if head_is(list, "gr_circle") {
        match need_two(
            list,
            "center",
            "gr_circle missing (center …)",
            "end",
            "gr_circle missing (end …)",
        ) {
            Ok((c, e)) => Ok(circle(c, offset(center, c), e)),
            Err(e) => Err(e),
        }
    } else if head_is(list, "gr_line") {
        match need_two(
            list,
            "start",
            "gr_line missing (start …)",
            "end",
            "gr_line missing (end …)",
        ) {
            Ok((s, e)) => Ok(line(offset(center, s), offset(center, e), prim_width(list))),
            Err(e) => Err(e),
        }
    } else if head_is(list, "gr_rect") {
        match need_two(
            list,
            "start",
            "gr_rect missing (start …)",
            "end",
            "gr_rect missing (end …)",
        ) {
            Ok((s, e)) => {
                let pts = rect_corners(s, e);
                Ok(Some(Shape2D::polygon(offset_all(center, &pts))))
            },
            Err(e) => Err(e),
        }
    } else if head_is(list, "gr_poly") {
        match prim_pts(list) {
            Ok(pts) => Ok(poly(offset_all(center, &pts))),
            Err(e) => Err(e),
        }
    } else if head_is(list, "gr_arc") {
        arc(list, center, prim_width(list), rs)
    } else {
        Ok(None)
    }
}

fn parse_graphic_shape(list: &Vec<Sexp>, rs: &Readings) -> (r: Result<Option<Shape2D>, String>)
    requires
        number::readable(rs@),
    ensures
        agree_shape(r, graphic_shape(sexp::node_views(list@), rs@)),
{
    let width = graphic_width(list);
    if head_is(list, "fp_line") {
        match need_two(
            list,
            "start",
            "fp_line missing (start …)",
            "end",
            "fp_line missing (end …)",
        ) {
            Ok((s, e)) => Ok(line(s, e, width)),
            Err(e) => Err(e),
        }
    } else if head_is(list, "fp_arc") {
        arc(list, Point { x: 0, y: 0 }, width, rs)
    } else if head_is(list, "fp_circle") {
        match need_two(
            list,
            "center",
            "fp_circle missing (center …)",
            "end",
            "fp_circle missing (end …)",
        ) {
            Ok((c, e)) => Ok(circle(c, c, e)),
            Err(e) => Err(e),
        }
    } else if head_is(list, "fp_rect") {
        match need_two(
            list,
            "start",
            "fp_rect missing (start …)",
            "end",
            "fp_rect missing (end …)",
        ) {
            Ok((s, e)) => Ok(Some(Shape2D::polygon(rect_corners(s, e)))),
            Err(e) => Err(e),
        }
    } else if head_is(list, "fp_poly") {
        match prim_pts(list) {
            Ok(pts) => Ok(poly(pts)),
            Err(e) => Err(e),
        }
    } else {
        Ok(None)
    }
}

/// The shape and the layer of one footprint graphic. A stroke is its centre line inflated
/// by half its width; rectangles, polygons and circles are filled.
pub fn parse_fp_graphic(item: &Sexp, rs: &Readings) -> (r: Result<
    Option<(Shape2D, String)>,
    String,
>)
    requires
        number::readable(rs@),
    ensures
        match (r, fp_graphic(item@, rs@)) {
            (Ok(Some((s, l))), Ok(Some((a, b)))) => s@ == a && l@ == b,
            (Ok(None), Ok(None)) => true,
            (Err(e), Err(m)) => e@ == m,
            _ => false,
        },
{
    let list = match item.as_list() {
        Some(l) => l,
        None => {
            return Ok(None);
        },
    };
    match parse_graphic_shape(list, rs) {
        Err(e) => Err(e),
        Ok(None) => Ok(None),
        Ok(Some(s)) => match find_child_atom(list, "layer", 1) {
            Some(l) => Ok(Some((s, l.to_owned()))),
            None => Ok(None),
        },
    }
}

} // verus!
