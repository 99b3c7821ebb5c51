//! Import of a footprint: pads become pins with copper and drills, and the graphics, the
//! courtyard and the texts come along. A footprint carries no electrical roles, so every
//! pin is passive and there are no interfaces.

use super::number;
use super::number::{rotate_point, scale_nm, Num, Ratio, Readings, Turn};
use super::primitive;
use super::primitive::{
    head_is, parse_fp_graphic, parse_primitive, prim_xy, read_meaning, read_number, read_point,
    read_soft,
};
use super::sexp;
use super::sexp::{find_child, find_child_atom, mm_to_nm, nth_atom, parse, Sexp, SexpV};
use crate::binary64::Real;
use crate::coord;
use crate::coord::{Nm, Orient, Point};
use crate::geom::limits;
use crate::geom::path;
use crate::geom::shape;
use crate::geom::shape::{Shape2D, ShapeV};
use crate::names::NameMap;
use crate::part;
use crate::part::{
    CopperV, Drill, FpGraphic, FpText, FpTextKind, GraphicV, PadCopper, PadGeo, PadLayers, PadV,
    PartDef, PartV, PinDef, PinRole, PinV, TextKindV, TextV,
};
use crate::text;
use crate::text::{cat, cat3, chars_of, debug_string, str_eq};
use vstd::prelude::*;

verus! {

// ---------------------------------------------------------------------------
// Pads.
// ---------------------------------------------------------------------------

/// The rotation of a pad: the third number of its `(at x y angle)`.
pub open spec fn pad_turn(pad: Seq<SexpV>, rs: Seq<(Seq<char>, Num)>) -> Turn {
    match number::opt_meaning(rs, sexp::child_atom(pad, "at"@, 3)) {
        Some(n) => n.turn,
        None => Turn::Still,
    }
}

/// A slot of the given size along its longer axis, turned about its centre.
pub open spec fn slot_of(c: Point, w: Nm, h: Nm, t: Turn) -> Drill {
    if w >= h {
        let d = path::half(w - h);
        Drill::Slot {
            a: number::rotated(Point { x: (c.x - d) as i64, y: c.y }, c, t),
            b: number::rotated(Point { x: (c.x + d) as i64, y: c.y }, c, t),
            d: h,
        }
    } else {
        let d = path::half(h - w);
        Drill::Slot {
            a: number::rotated(Point { x: c.x, y: (c.y - d) as i64 }, c, t),
            b: number::rotated(Point { x: c.x, y: (c.y + d) as i64 }, c, t),
            d: w,
        }
    }
}

/// The drill of a pad: `(drill d)`, or the slot `(drill oval w h)`.
pub open spec fn drill_of(pad: Seq<SexpV>, c: Point, t: Turn) -> Result<Option<Drill>, Seq<char>> {
    match sexp::child(pad, "drill"@) {
        None => Ok(None),
        Some(d) => match sexp::atom_at(d, 1) {
            None => Ok(None),
            Some(a) => if a == "oval"@ {
                match primitive::number_at(d, 2, "drill oval missing w"@) {
                    Err(e) => Err(e),
                    Ok(w) => match primitive::number_at(d, 3, "drill oval missing h"@) {
                        Err(e) => Err(e),
                        Ok(h) => Ok(Some(slot_of(c, w, h, t))),
                    },
                }
            } else {
                match sexp::mm(a) {
                    Ok(v) => Ok(Some(Drill::Round { d: v as i64 })),
                    Err(e) => Err(e),
                }
            },
        },
    }
}

/// A name for layers on both sides.
pub open spec fn is_wild(a: Seq<char>) -> bool {
    a.len() >= 2 && a[0] == '*' && a[1] == '.'
}

/// Some argument of the list is this atom.
pub open spec fn lists_atom(l: Seq<SexpV>, a: Seq<char>) -> bool {
    exists|i: int| 1 <= i < l.len() && #[trigger] sexp::atom_at(l, i) == Some(a)
}

/// Some argument of the list names layers on both sides.
pub open spec fn lists_wild(l: Seq<SexpV>) -> bool {
    exists|i: int|
        1 <= i < l.len() && (#[trigger] sexp::atom_at(l, i)) is Some && is_wild(
            sexp::atom_at(l, i)->0,
        )
}

/// The copper layers of a pad: through for the through-hole types, else as its `(layers …)`
/// says, else top.
pub open spec fn layers_of(pad: Seq<SexpV>) -> PadLayers {
    let ty = sexp::atom_at(pad, 2);
    if ty == Some("thru_hole"@) || ty == Some("np_thru_hole"@) {
        PadLayers::Through
    } else {
        match sexp::child(pad, "layers"@) {
            Some(l) => if lists_wild(l) || (lists_atom(l, "F.Cu"@) && lists_atom(l, "B.Cu"@)) {
                PadLayers::Through
            } else if lists_atom(l, "B.Cu"@) {
                PadLayers::Bottom
            } else {
                PadLayers::Top
            },
            None => PadLayers::Top,
        }
    }
}

/// The smaller of two lengths.
pub open spec fn smaller(a: Nm, b: Nm) -> Nm {
    if a < b {
        a
    } else {
        b
    }
}

/// A pill along the longer axis; a disc when both sizes are equal.
pub open spec fn oval_of(c: Point, w: Nm, h: Nm) -> ShapeV {
    if w == h {
        shape::disc_of(c, path::half(w as int))
    } else if w > h {
        let d = path::half(w - h);
        shape::capsule_of(
            Point { x: (c.x - d) as i64, y: c.y },
            Point { x: (c.x + d) as i64, y: c.y },
            path::half(h as int),
        )
    } else {
        let d = path::half(h - w);
        shape::capsule_of(
            Point { x: c.x, y: (c.y - d) as i64 },
            Point { x: c.x, y: (c.y + d) as i64 },
            path::half(w as int),
        )
    }
}

/// The corner radius of a rounded rectangle that states no ratio: a quarter of the
/// smaller side.
pub open spec fn default_ratio() -> Ratio {
    Ratio::Finite(Real { neg: false, mant: 0x10_0000_0000_0000, exp: -54i32 })
}

/// The corner ratio of a rounded pad.
pub open spec fn ratio_of(pad: Seq<SexpV>, rs: Seq<(Seq<char>, Num)>) -> Ratio {
    match number::opt_meaning(rs, sexp::child_atom(pad, "roundrect_rratio"@, 1)) {
        Some(n) => n.ratio,
        None => default_ratio(),
    }
}

/// The shapes of the primitives from `i` on, behind those already there.
pub open spec fn primitives_from(
    l: Seq<SexpV>,
    i: int,
    done: Seq<ShapeV>,
    c: Point,
    rs: Seq<(Seq<char>, Num)>,
) -> Result<Seq<ShapeV>, Seq<char>>
    decreases l.len() - i,
{
    if i < 0 || i >= l.len() {
        Ok(done)
    } else {
        match primitive::primitive_shape(l[i], c, rs) {
            Err(e) => Err(e),
            Ok(Some(s)) => primitives_from(l, i + 1, done.push(s), c, rs),
            Ok(None) => primitives_from(l, i + 1, done, c, rs),
        }
    }
}

/// The shapes of a custom pad: its anchor, then its primitives.
pub open spec fn custom_shapes(
    pad: Seq<SexpV>,
    c: Point,
    w: Nm,
    h: Nm,
    rs: Seq<(Seq<char>, Num)>,
) -> Result<Seq<ShapeV>, Seq<char>> {
    let round = match sexp::child(pad, "options"@) {
        Some(o) => sexp::child_atom(o, "anchor"@, 1) == Some("circle"@),
        None => false,
    };
    let anchor = if round {
        shape::disc_of(c, path::half(smaller(w, h) as int))
    } else {
        shape::rect_of(c, w as int, h as int)
    };
    match sexp::child(pad, "primitives"@) {
        Some(l) => primitives_from(l, 1, seq![anchor], c, rs),
        None => Ok(seq![anchor]),
    }
}

/// The shapes of a pad of the given size, before its rotation.
pub open spec fn pad_shapes(
    pad: Seq<SexpV>,
    c: Point,
    w: Nm,
    h: Nm,
    rs: Seq<(Seq<char>, Num)>,
) -> Result<Seq<ShapeV>, Seq<char>> {
    let kind = sexp::atom_at(pad, 3);
    if kind == Some("circle"@) {
        Ok(seq![shape::disc_of(c, path::half(w as int))])
    } else if kind == Some("roundrect"@) {
        if path::half(w as int) < 0 || path::half(h as int) < 0 {
            Err("pad (size …) is negative"@)
        } else {
            Ok(
                seq![
                    shape::round_rect_of(
                        c,
                        w as int,
                        h as int,
                        number::scaled(smaller(w, h) as int, ratio_of(pad, rs)),
                    ),
                ],
            )
        }
    } else if kind == Some("oval"@) {
        Ok(seq![oval_of(c, w, h)])
    } else if kind == Some("custom"@) {
        custom_shapes(pad, c, w, h, rs)
    } else {
        Ok(seq![shape::rect_of(c, w as int, h as int)])
    }
}

/// A shape turned about a point.
pub open spec fn turned_shape(s: ShapeV, c: Point, t: Turn) -> ShapeV {
    shape::shape_map(s, |p: Point| number::rotated(p, c, t))
}

/// The copper of a pad; none without a `(size w h)`.
pub open spec fn copper_of(
    pad: Seq<SexpV>,
    c: Point,
    t: Turn,
    rs: Seq<(Seq<char>, Num)>,
) -> Result<Seq<CopperV>, Seq<char>> {
    match sexp::child(pad, "size"@) {
        None => Ok(Seq::empty()),
        Some(size) => match primitive::number_at(size, 1, "pad (size …) missing width"@) {
            Err(e) => Err(e),
            Ok(w) => match primitive::number_at(size, 2, "pad (size …) missing height"@) {
                Err(e) => Err(e),
                Ok(h) => match pad_shapes(pad, c, w, h, rs) {
                    Err(e) => Err(e),
                    Ok(v) => Ok(
                        Seq::new(
                            v.len(),
                            |i: int|
                                CopperV {
                                    shape: turned_shape(v[i], c, t),
                                    layers: layers_of(pad),
                                },
                        ),
                    ),
                },
            },
        },
    }
}

/// The geometry of a pad centred at `c`; nothing without copper and drill.
pub open spec fn pad_geometry(pad: Seq<SexpV>, c: Point, rs: Seq<(Seq<char>, Num)>) -> Result<
    Option<PadV>,
    Seq<char>,
> {
    let t = pad_turn(pad, rs);
    match drill_of(pad, c, t) {
        Err(e) => Err(e),
        Ok(drill) => match copper_of(pad, c, t, rs) {
            Err(e) => Err(e),
            Ok(copper) => if copper.len() == 0 && drill is None {
                Ok(None)
            } else {
                Ok(Some(PadV { copper, drill }))
            },
        },
    }
}

fn parse_drill(pad: &Vec<Sexp>, c: Point, t: Turn) -> (r: Result<Option<Drill>, String>)
    requires
        limits::pt_in_ingest(c),
        t.ok(),
    ensures
        primitive::agree(r, drill_of(sexp::node_views(pad@), c, t)),
{
    let d = match find_child(pad, "drill") {
        None => {
            return Ok(None);
        },
        Some(d) => d,
    };
    match nth_atom(d, 1) {
        None => Ok(None),
        Some(a) => {
            if str_eq(a, "oval") {
                let w: Nm = match read_number(d, 2, "drill oval missing w") {
                    Ok(w) => w,
                    Err(e) => {
                        return Err(e);
                    },
                };
                let h: Nm = match read_number(d, 3, "drill oval missing h") {
                    Ok(h) => h,
                    Err(e) => {
                        return Err(e);
                    },
                };
                if w >= h {
                    let dx = (w - h) / 2;
                    Ok(
                        Some(
                            Drill::Slot {
                                a: rotate_point(Point { x: c.x - dx, y: c.y }, c, t),
                                b: rotate_point(Point { x: c.x + dx, y: c.y }, c, t),
                                d: h,
                            },
                        ),
                    )
                } else {
                    let dy = (h - w) / 2;
                    Ok(
                        Some(
                            Drill::Slot {
                                a: rotate_point(Point { x: c.x, y: c.y - dy }, c, t),
                                b: rotate_point(Point { x: c.x, y: c.y + dy }, c, t),
                                d: w,
                            },
                        ),
                    )
                }
            } else {
                match mm_to_nm(a) {
                    Ok(v) => Ok(Some(Drill::Round { d: v })),
                    Err(e) => Err(e),
                }
            }
        },
    }
}

fn names_both_sides(a: &str) -> (r: bool)
    ensures
        r == is_wild(a@),
{
    let cs = chars_of(a);
    cs.len() >= 2 && cs[0] == '*' && cs[1] == '.'
}

/// Whether the list names both sides, the front and the back.
fn scan_layers(l: &Vec<Sexp>) -> (r: (bool, bool, bool))
    ensures
        r.0 == lists_wild(sexp::node_views(l@)),
        r.1 == lists_atom(sexp::node_views(l@), "F.Cu"@),
        r.2 == lists_atom(sexp::node_views(l@), "B.Cu"@),
{
    let ghost v = sexp::node_views(l@);
    let mut wild = false;
    let mut front = false;
    let mut back = false;
    let mut i: usize = 1;
    while i < l.len()
        invariant
            1 <= i,
            i <= l.len() || i == 1,
            v == sexp::node_views(l@),
            wild == exists|k: int|
                1 <= k < i && (#[trigger] sexp::atom_at(v, k)) is Some && is_wild(
                    sexp::atom_at(v, k)->0,
                ),
            front == exists|k: int|
                1 <= k < i && #[trigger] sexp::atom_at(v, k) == Some("F.Cu"@),
            back == exists|k: int|
                1 <= k < i && #[trigger] sexp::atom_at(v, k) == Some("B.Cu"@),
        decreases l.len() - i,
    {
        let ghost at = sexp::atom_at(v, i as int);
        if let Some(a) = nth_atom(l, i) {
            assert(at == Some(a@));
            if names_both_sides(a) {
                wild = true;
            }
            if str_eq(a, "F.Cu") {
                front = true;
            }
            if str_eq(a, "B.Cu") {
                back = true;
            }
        }
        i += 1;
    }
    (wild, front, back)
}

fn pad_layers(pad: &Vec<Sexp>) -> (r: PadLayers)
    ensures
        r == layers_of(sexp::node_views(pad@)),
{
    if let Some(ty) = nth_atom(pad, 2) {
        if str_eq(ty, "thru_hole") || str_eq(ty, "np_thru_hole") {
            return PadLayers::Through;
        }
    }
    if let Some(l) = find_child(pad, "layers") {
        let (wild, front, back) = scan_layers(l);
        if wild || (front && back) {
            return PadLayers::Through;
        }
        if back {
            return PadLayers::Bottom;
        }
    }
    PadLayers::Top
}

fn oval_shape(c: Point, w: Nm, h: Nm) -> (r: Shape2D)
    requires
        limits::pt_in_ingest(c),
        limits::in_ingest(w as int),
        limits::in_ingest(h as int),
    ensures
        r@ == oval_of(c, w, h),
{
    if w == h {
        Shape2D::disc(c, w / 2)
    } else if w > h {
        let dx = (w - h) / 2;
        Shape2D::capsule(Point { x: c.x - dx, y: c.y }, Point { x: c.x + dx, y: c.y }, h / 2)
    } else {
        let dy = (h - w) / 2;
        Shape2D::capsule(Point { x: c.x, y: c.y - dy }, Point { x: c.x, y: c.y + dy }, w / 2)
    }
}

fn parse_custom_copper(pad: &Vec<Sexp>, c: Point, w: Nm, h: Nm, rs: &Readings) -> (r: Result<
    Vec<Shape2D>,
    String,
>)
    requires
        limits::pt_in_ingest(c),
        limits::in_ingest(w as int),
        limits::in_ingest(h as int),
        number::readable(rs@),
    ensures
        match (r, custom_shapes(sexp::node_views(pad@), c, w, h, rs@)) {
            (Ok(v), Ok(s)) => part::geometry::shape_views(v@) == s,
            (Err(e), Err(m)) => e@ == m,
            _ => false,
        },
{
    let round = match find_child(pad, "options") {
        Some(o) => match find_child_atom(o, "anchor", 1) {
            Some(a) => str_eq(a, "circle"),
            None => false,
        },
        None => false,
    };
    let anchor = if round {
        let m: Nm = if w < h {
            w
        } else {
            h
        };
        Shape2D::disc(c, m / 2)
    } else {
        Shape2D::rect(c, w, h)
    };
    let ghost first = anchor@;
    let mut shapes: Vec<Shape2D> = Vec::new();
    shapes.push(anchor);
    assert(part::geometry::shape_views(shapes@) =~= seq![first]);
    if let Some(l) = find_child(pad, "primitives") {
        let ghost v = sexp::node_views(l@);
        let mut i: usize = 1;
        while i < l.len()
            invariant
                1 <= i <= l.len(),
                v == sexp::node_views(l@),
                limits::pt_in_ingest(c),
                number::readable(rs@),
                custom_shapes(sexp::node_views(pad@), c, w, h, rs@) == primitives_from(
                    v,
                    i as int,
                    part::geometry::shape_views(shapes@),
                    c,
                    rs@,
                ),
            decreases l.len() - i,
        {
            assert(v[i as int] == l@[i as int]@);
            match parse_primitive(&l[i], c, rs) {
                Err(e) => {
                    return Err(e);
                },
                Ok(Some(s)) => {
                    let ghost done = part::geometry::shape_views(shapes@);
                    let ghost one = s@;
                    shapes.push(s);
                    assert(part::geometry::shape_views(shapes@) =~= done.push(one));
                },
                Ok(None) => {},
            }
            i += 1;
        }
    }
    Ok(shapes)
}

fn one_shape(s: Shape2D) -> (r: Vec<Shape2D>)
    ensures
        part::geometry::shape_views(r@) == seq![s@],
{
    let ghost v = s@;
    let mut out: Vec<Shape2D> = Vec::new();
    out.push(s);
    assert(part::geometry::shape_views(out@) =~= seq![v]);
    out
}

fn parse_pad_shapes(pad: &Vec<Sexp>, c: Point, w: Nm, h: Nm, rs: &Readings) -> (r: Result<
    Vec<Shape2D>,
    String,
>)
    requires
        limits::pt_in_ingest(c),
        limits::in_ingest(w as int),
        limits::in_ingest(h as int),
        number::readable(rs@),
    ensures
        match (r, pad_shapes(sexp::node_views(pad@), c, w, h, rs@)) {
            (Ok(v), Ok(s)) => part::geometry::shape_views(v@) == s,
            (Err(e), Err(m)) => e@ == m,
            _ => false,
        },
{
    let kind = match nth_atom(pad, 3) {
        Some(k) => k,
        None => {
            return Ok(one_shape(Shape2D::rect(c, w, h)));
        },
    };
    if str_eq(kind, "circle") {
        Ok(one_shape(Shape2D::disc(c, w / 2)))
    } else if str_eq(kind, "roundrect") {
        if w / 2 < 0 || h / 2 < 0 {
            return Err("pad (size …) is negative".to_owned());
        }
        let ratio = match read_meaning(rs, find_child_atom(pad, "roundrect_rratio", 1)) {
            Some(n) => n.ratio,
            None => Ratio::Finite(Real { neg: false, mant: 0x10_0000_0000_0000, exp: -54 }),
        };
        let m: Nm = if w < h {
            w
        } else {
            h
        };
        let radius: Nm = scale_nm(m, ratio);
        Ok(one_shape(Shape2D::round_rect(c, w, h, radius)))
    } else if str_eq(kind, "oval") {
        Ok(one_shape(oval_shape(c, w, h)))
    } else if str_eq(kind, "custom") {
        parse_custom_copper(pad, c, w, h, rs)
    } else {
        Ok(one_shape(Shape2D::rect(c, w, h)))
    }
}

/// Turn a shape about a point.
fn rotate_shape(s: &Shape2D, c: Point, t: Turn) -> (r: Shape2D)
    requires
        t.ok(),
        !(s@ is Area),
    ensures
        r@ == turned_shape(s@, c, t),
{
    let f = |p: Point| -> (q: Point)
        requires
            t.ok(),
        ensures
            q == number::rotated(p, c, t),
        { rotate_point(p, c, t) };
    let r = s.map_points(f);
    proof {
        shape::shape_mapped_is_map(s@, r@, &f, |p: Point| number::rotated(p, c, t));
    }
    r
}

/// No primitive is a filled area with holes.
proof fn primitives_are_plain(
    l: Seq<SexpV>,
    i: int,
    done: Seq<ShapeV>,
    c: Point,
    rs: Seq<(Seq<char>, Num)>,
)
    requires
        forall|k: int| 0 <= k < done.len() ==> !((#[trigger] done[k]) is Area),
        primitives_from(l, i, done, c, rs) is Ok,
    ensures
        forall|k: int|
            0 <= k < primitives_from(l, i, done, c, rs)->Ok_0.len() ==> !((
            #[trigger] primitives_from(l, i, done, c, rs)->Ok_0[k]) is Area),
    decreases l.len() - i,
{
    reveal(primitive::arc_shape);
    if 0 <= i < l.len() {
        match primitive::primitive_shape(l[i], c, rs) {
            Err(e) => {},
            Ok(Some(s)) => {
                primitives_are_plain(l, i + 1, done.push(s), c, rs);
            },
            Ok(None) => {
                primitives_are_plain(l, i + 1, done, c, rs);
            },
        }
    }
}

proof fn pad_shapes_are_plain(
    pad: Seq<SexpV>,
    c: Point,
    w: Nm,
    h: Nm,
    rs: Seq<(Seq<char>, Num)>,
)
    requires
        pad_shapes(pad, c, w, h, rs) is Ok,
    ensures
        forall|k: int|
            0 <= k < pad_shapes(pad, c, w, h, rs)->Ok_0.len() ==> !((#[trigger] pad_shapes(
                pad,
                c,
                w,
                h,
                rs,
            )->Ok_0[k]) is Area),
{
    let kind = sexp::atom_at(pad, 3);
    if kind == Some("custom"@) && kind != Some("circle"@) && kind != Some("roundrect"@) && kind
        != Some("oval"@) {
        match sexp::child(pad, "primitives"@) {
            Some(l) => {
                let round = match sexp::child(pad, "options"@) {
                    Some(o) => sexp::child_atom(o, "anchor"@, 1) == Some("circle"@),
                    None => false,
                };
                let anchor = if round {
                    shape::disc_of(c, path::half(smaller(w, h) as int))
                } else {
                    shape::rect_of(c, w as int, h as int)
                };
                primitives_are_plain(l, 1, seq![anchor], c, rs);
            },
            None => {},
        }
    }
}

fn parse_copper(pad: &Vec<Sexp>, c: Point, t: Turn, rs: &Readings) -> (r: Result<
    Vec<PadCopper>,
    String,
>)
    requires
        limits::pt_in_ingest(c),
        t.ok(),
        number::readable(rs@),
    ensures
        match (r, copper_of(sexp::node_views(pad@), c, t, rs@)) {
            (Ok(v), Ok(s)) => part::copper_views(v@) == s,
            (Err(e), Err(m)) => e@ == m,
            _ => false,
        },
{
    let mut out: Vec<PadCopper> = Vec::new();
    let size = match find_child(pad, "size") {
        None => {
            assert(part::copper_views(out@) =~= Seq::empty());
            return Ok(out);
        },
        Some(s) => s,
    };
    let w: Nm = match read_number(size, 1, "pad (size …) missing width") {
        Ok(w) => w,
        Err(e) => {
            return Err(e);
        },
    };
    let h: Nm = match read_number(size, 2, "pad (size …) missing height") {
        Ok(h) => h,
        Err(e) => {
            return Err(e);
        },
    };
    let shapes = match parse_pad_shapes(pad, c, w, h, rs) {
        Ok(v) => v,
        Err(e) => {
            return Err(e);
        },
    };
    let layers = pad_layers(pad);
    let ghost vs = part::geometry::shape_views(shapes@);
    let ghost want = copper_of(sexp::node_views(pad@), c, t, rs@)->Ok_0;
    proof {
        pad_shapes_are_plain(sexp::node_views(pad@), c, w, h, rs@);
    }
    let mut i: usize = 0;
    while i < shapes.len()
        invariant
            i <= shapes.len(),
            t.ok(),
            vs == part::geometry::shape_views(shapes@),
            want == Seq::new(
                vs.len(),
                |k: int| CopperV { shape: turned_shape(vs[k], c, t), layers },
            ),
            forall|k: int| 0 <= k < vs.len() ==> !((#[trigger] vs[k]) is Area),
            out.len() == i,
            forall|k: int| 0 <= k < i ==> (#[trigger] out@[k])@ == want[k],
        decreases shapes.len() - i,
    {
        assert(vs[i as int] == shapes@[i as int]@);
        let shape = rotate_shape(&shapes[i], c, t);
        out.push(PadCopper { shape, layers });
        i += 1;
    }
    assert(part::copper_views(out@) =~= want);
    Ok(out)
}

/// Lift a pad's copper and drill, centred at `c` and turned by the pad's angle.
fn parse_pad_geometry(pad: &Vec<Sexp>, c: Point, rs: &Readings) -> (r: Result<
    Option<PadGeo>,
    String,
>)
    requires
        limits::pt_in_ingest(c),
        number::readable(rs@),
    ensures
        match (r, pad_geometry(sexp::node_views(pad@), c, rs@)) {
            (Ok(o), Ok(w)) => part::opt_pad(o) == w,
            (Err(e), Err(m)) => e@ == m,
            _ => false,
        },
{
    let t = match read_meaning(rs, find_child_atom(pad, "at", 3)) {
        Some(n) => n.turn,
        None => Turn::Still,
    };
    let drill = match parse_drill(pad, c, t) {
        Ok(d) => d,
        Err(e) => {
            return Err(e);
        },
    };
    let copper = match parse_copper(pad, c, t, rs) {
        Ok(v) => v,
        Err(e) => {
            return Err(e);
        },
    };
    assert(part::copper_views(copper@).len() == copper.len());
    if copper.len() == 0 && drill.is_none() {
        return Ok(None);
    }
    Ok(Some(PadGeo { copper, drill }))
}

// ---------------------------------------------------------------------------
// Texts.
// ---------------------------------------------------------------------------

/// What user text shows: a whole-string variable stands for the live reference or label,
/// anything else for itself.
pub open spec fn user_kind(s: Seq<char>) -> TextKindV {
    if s == "${REFERENCE}"@ {
        TextKindV::Reference
    } else if s == "${VALUE}"@ {
        TextKindV::Label
    } else {
        TextKindV::Literal(s)
    }
}

/// An optional atom, empty when there is none.
pub open spec fn or_empty(o: Option<Seq<char>>) -> Seq<char> {
    match o {
        Some(s) => s,
        None => Seq::empty(),
    }
}

/// What a text node shows; `None` when it is no footprint text.
pub open spec fn text_kind(list: Seq<SexpV>) -> Option<TextKindV> {
    let head = sexp::atom_at(list, 0);
    let what = sexp::atom_at(list, 1);
    if head == Some("fp_text"@) {
        if what == Some("reference"@) {
            Some(TextKindV::Reference)
        } else if what == Some("value"@) {
            Some(TextKindV::Label)
        } else if what == Some("user"@) {
            Some(user_kind(or_empty(sexp::atom_at(list, 2))))
        } else {
            None
        }
    } else if head == Some("property"@) {
        if what == Some("Reference"@) {
            Some(TextKindV::Reference)
        } else if what == Some("Value"@) {
            Some(TextKindV::Label)
        } else {
            None
        }
    } else {
        None
    }
}

/// The orientation of a text: exact for the four cardinal angles, the approximated one off
/// axis. An angle that is no number leaves the text upright.
pub open spec fn text_orient(o: Option<Num>) -> Orient {
    match o {
        None => coord::quarter_turn(0),
        Some(n) => match n.turn {
            Turn::Still => coord::quarter_turn(0),
            Turn::Quarter => coord::quarter_turn(1),
            Turn::Half => coord::quarter_turn(2),
            Turn::ThreeQuarter => coord::quarter_turn(3),
            _ => if n.ratio is NotANumber {
                coord::quarter_turn(0)
            } else {
                n.orient
            },
        },
    }
}

/// The height of a text: the first number of `(effects (font (size h w)))`, else 1 mm.
pub open spec fn text_height(list: Seq<SexpV>) -> Nm {
    let size = match sexp::child(list, "effects"@) {
        Some(eff) => match sexp::child(eff, "font"@) {
            Some(font) => primitive::soft_length(sexp::child_atom(font, "size"@, 1)),
            None => None,
        },
        None => None,
    };
    match size {
        Some(h) => h,
        None => 1_000_000,
    }
}

/// The list holds the atom `hide`, or a child `(hide …)` that does not say no.
pub open spec fn hidden_in(l: Seq<SexpV>) -> bool {
    ||| exists|i: int| 0 <= i < l.len() && #[trigger] sexp::atom_at(l, i) == Some("hide"@)
    ||| match sexp::child(l, "hide"@) {
        Some(h) => sexp::atom_at(h, 1) != Some("no"@),
        None => false,
    }
}

/// A text is hidden by itself or within its effects.
pub open spec fn text_hidden(list: Seq<SexpV>) -> bool {
    hidden_in(list) || match sexp::child(list, "effects"@) {
        Some(e) => hidden_in(e),
        None => false,
    }
}

/// The text anchor that a node is, if it is one.
pub open spec fn fp_text(item: SexpV, rs: Seq<(Seq<char>, Num)>) -> Result<
    Option<TextV>,
    Seq<char>,
> {
    match item {
        SexpV::Atom(_) => Ok(None),
        SexpV::List(list) => match (text_kind(list), sexp::child_atom(list, "layer"@, 1)) {
            (Some(kind), Some(layer)) => match primitive::xy(list, "at"@) {
                Err(e) => Err(e),
                Ok(at) => Ok(
                    Some(
                        TextV {
                            kind,
                            at: match at {
                                Some(p) => p,
                                None => Point { x: 0, y: 0 },
                            },
                            height: text_height(list),
                            layer,
                            orient: text_orient(
                                number::opt_meaning(rs, sexp::child_atom(list, "at"@, 3)),
                            ),
                            hide: text_hidden(list),
                        },
                    ),
                ),
            },
            _ => Ok(None),
        },
    }
}

fn text_kind_from_user(s: &str) -> (r: FpTextKind)
    ensures
        r@ == user_kind(s@),
{
    if str_eq(s, "${REFERENCE}") {
        FpTextKind::Reference
    } else if str_eq(s, "${VALUE}") {
        FpTextKind::Label
    } else {
        FpTextKind::Literal(s.to_owned())
    }
}

/// Is the optional atom `s`?
pub fn is_text(a: Option<&str>, s: &str) -> (r: bool)
    ensures
        r == (sexp::opt_text(a) == Some(s@)),
{
    match a {
        Some(x) => str_eq(x, s),
        None => false,
    }
}

fn parse_text_kind(list: &Vec<Sexp>) -> (r: Option<FpTextKind>)
    ensures
        match (r, text_kind(sexp::node_views(list@))) {
            (Some(a), Some(b)) => a@ == b,
            (None, None) => true,
            _ => false,
        },
{
    let what = nth_atom(list, 1);
    if head_is(list, "fp_text") {
        if is_text(what, "reference") {
            Some(FpTextKind::Reference)
        } else if is_text(what, "value") {
            Some(FpTextKind::Label)
        } else if is_text(what, "user") {
            match nth_atom(list, 2) {
                Some(s) => Some(text_kind_from_user(s)),
                None => {
                    proof {
                        reveal_strlit("");
                        assert(""@ =~= Seq::empty());
                    }
                    Some(text_kind_from_user(""))
                },
            }
        } else {
            None
        }
    } else if head_is(list, "property") {
        if is_text(what, "Reference") {
            Some(FpTextKind::Reference)
        } else if is_text(what, "Value") {
            Some(FpTextKind::Label)
        } else {
            None
        }
    } else {
        None
    }
}

fn text_font_height(list: &Vec<Sexp>) -> (r: Option<Nm>)
    ensures
        text_height(sexp::node_views(list@)) == match r {
            Some(h) => h,
            None => 1_000_000,
        },
{
    match find_child(list, "effects") {
        Some(eff) => match find_child(eff, "font") {
            Some(font) => read_soft(find_child_atom(font, "size", 1)),
            None => None,
        },
        None => None,
    }
}

fn is_hidden_in(l: &Vec<Sexp>) -> (r: bool)
    ensures
        r == hidden_in(sexp::node_views(l@)),
{
    let ghost v = sexp::node_views(l@);
    let mut i: usize = 0;
    while i < l.len()
        invariant
            i <= l.len(),
            v == sexp::node_views(l@),
            forall|k: int| 0 <= k < i ==> #[trigger] sexp::atom_at(v, k) != Some("hide"@),
        decreases l.len() - i,
    {
        let ghost at = sexp::atom_at(v, i as int);
        if is_text(nth_atom(l, i), "hide") {
            assert(sexp::atom_at(v, i as int) == Some("hide"@));
            return true;
        }
        i += 1;
    }
    match find_child(l, "hide") {
        Some(h) => !is_text(nth_atom(h, 1), "no"),
        None => false,
    }
}

fn is_text_hidden(list: &Vec<Sexp>) -> (r: bool)
    ensures
        r == text_hidden(sexp::node_views(list@)),
{
    is_hidden_in(list) || match find_child(list, "effects") {
        Some(e) => is_hidden_in(e),
        None => false,
    }
}

fn orient_of(n: &Num) -> (r: Orient)
    ensures
        r == text_orient(Some(*n)),
{
    match n.turn {
        Turn::Still => Orient::identity(),
        Turn::Quarter => Orient { w: 1, x: 0, y: 0, z: 1 },
        Turn::Half => Orient { w: 0, x: 0, y: 0, z: 1 },
        Turn::ThreeQuarter => Orient { w: 1, x: 0, y: 0, z: -1 },
        _ => match n.ratio {
            Ratio::NotANumber => Orient::identity(),
            _ => n.orient,
        },
    }
}

/// The text anchor that a node is, in the classic form or as a property. Reference and
/// value texts drop their placeholder; the thickness of the pen is not kept.
fn parse_fp_text(item: &Sexp, rs: &Readings) -> (r: Result<Option<FpText>, String>)
    requires
        number::readable(rs@),
    ensures
        match (r, fp_text(item@, rs@)) {
            (Ok(Some(a)), Ok(Some(b))) => a@ == b,
            (Ok(None), Ok(None)) => true,
            (Err(e), Err(m)) => e@ == m,
            _ => false,
        },
{
    let list = match item.as_list() {
        Some(l) => l,
        None => {
            return Ok(None);
        },
    };
    let kind = match parse_text_kind(list) {
        Some(k) => k,
        None => {
            return Ok(None);
        },
    };
    let layer = match find_child_atom(list, "layer", 1) {
        Some(l) => l.to_owned(),
        None => {
            return Ok(None);
        },
    };
    let at = match prim_xy(list, "at") {
        Ok(Some(p)) => p,
        Ok(None) => Point { x: 0, y: 0 },
        Err(e) => {
            return Err(e);
        },
    };
    let orient = match read_meaning(rs, find_child_atom(list, "at", 3)) {
        Some(n) => orient_of(&n),
        None => Orient::identity(),
    };
    let height: Nm = match text_font_height(list) {
        Some(h) => h,
        None => 1_000_000,
    };
    let hide = is_text_hidden(list);
    Ok(Some(FpText { kind, at, height, layer, orient, hide }))
}

// ---------------------------------------------------------------------------
// The footprint.
// ---------------------------------------------------------------------------

/// Some pin has this number.
pub open spec fn numbered(pins: Seq<PinV>, n: Seq<char>) -> bool {
    exists|i: int| 0 <= i < pins.len() && (#[trigger] pins[i]).number == n
}

/// The pin of a pad: named and numbered by the pad, passive, at the pad's position.
pub open spec fn pad_pin(pad: Seq<SexpV>, name: Seq<char>, rs: Seq<(Seq<char>, Num)>) -> Result<
    PinV,
    Seq<char>,
> {
    let q = "pad "@ + text::debug_text(name);
    match sexp::child(pad, "at"@) {
        None => Err(q + " has no (at ...)"@),
        Some(at) => match (sexp::atom_at(at, 1), sexp::atom_at(at, 2)) {
            (None, _) => Err(q + " (at ...) missing x"@),
            (_, None) => Err(q + " (at ...) missing y"@),
            _ => match primitive::point_at(at, Seq::empty(), Seq::empty()) {
                Err(e) => Err(e),
                Ok(offset) => match pad_geometry(pad, offset, rs) {
                    Err(e) => Err(e),
                    Ok(geo) => Ok(
                        PinV { name, number: name, role: PinRole::Passive, offset, pad: geo },
                    ),
                },
            },
        },
    }
}

/// The pins of the items from `i` on, behind those already there. A pad without a name is
/// skipped, and so is a pad whose name has been seen.
pub open spec fn pins_from(
    items: Seq<SexpV>,
    i: int,
    done: Seq<PinV>,
    rs: Seq<(Seq<char>, Num)>,
) -> Result<Seq<PinV>, Seq<char>>
    decreases items.len() - i,
{
    if i < 0 || i >= items.len() {
        Ok(done)
    } else {
        match sexp::headed(items[i], "pad"@) {
            None => pins_from(items, i + 1, done, rs),
            Some(pad) => {
                let name = or_empty(sexp::atom_at(pad, 1));
                if name.len() == 0 || numbered(done, name) {
                    pins_from(items, i + 1, done, rs)
                } else {
                    match pad_pin(pad, name, rs) {
                        Err(e) => Err(e),
                        Ok(pin) => pins_from(items, i + 1, done.push(pin), rs),
                    }
                }
            },
        }
    }
}

/// A layer whose graphics are kept.
pub open spec fn is_drawn(l: Seq<char>) -> bool {
    l == "F.SilkS"@ || l == "B.SilkS"@ || l == "F.Fab"@ || l == "B.Fab"@
}

/// A courtyard layer.
pub open spec fn is_courtyard(l: Seq<char>) -> bool {
    l == "F.CrtYd"@ || l == "B.CrtYd"@
}

/// The graphics and the courtyard of the items from `i` on, behind what is there. The last
/// courtyard polygon wins.
pub open spec fn graphics_from(
    items: Seq<SexpV>,
    i: int,
    done: Seq<GraphicV>,
    court: Option<ShapeV>,
    rs: Seq<(Seq<char>, Num)>,
) -> Result<(Seq<GraphicV>, Option<ShapeV>), Seq<char>>
    decreases items.len() - i,
{
    if i < 0 || i >= items.len() {
        Ok((done, court))
    } else {
        match primitive::fp_graphic(items[i], rs) {
            Err(e) => Err(e),
            Ok(None) => graphics_from(items, i + 1, done, court, rs),
            Ok(Some((s, l))) => if is_drawn(l) {
                graphics_from(items, i + 1, done.push(GraphicV { shape: s, layer: l }), court, rs)
            } else if is_courtyard(l) && s is Polygon {
                graphics_from(items, i + 1, done, Some(s), rs)
            } else {
                graphics_from(items, i + 1, done, court, rs)
            },
        }
    }
}

/// The texts of the items from `i` on, behind those already there.
pub open spec fn texts_from(
    items: Seq<SexpV>,
    i: int,
    done: Seq<TextV>,
    rs: Seq<(Seq<char>, Num)>,
) -> Result<Seq<TextV>, Seq<char>>
    decreases items.len() - i,
{
    if i < 0 || i >= items.len() {
        Ok(done)
    } else {
        match fp_text(items[i], rs) {
            Err(e) => Err(e),
            Ok(None) => texts_from(items, i + 1, done, rs),
            Ok(Some(t)) => texts_from(items, i + 1, done.push(t), rs),
        }
    }
}

/// How an optional atom is shown in a complaint.
pub open spec fn shown_option(o: Option<Seq<char>>) -> Seq<char> {
    match o {
        Some(s) => "Some("@ + text::debug_text(s) + ")"@,
        None => "None"@,
    }
}

/// The part that the items of a footprint describe.
pub open spec fn footprint_items(items: Seq<SexpV>, rs: Seq<(Seq<char>, Num)>) -> Result<
    PartV,
    Seq<char>,
> {
    let head = sexp::atom_at(items, 0);
    if head != Some("footprint"@) && head != Some("module"@) {
        Err("expected 'footprint' or 'module', got "@ + shown_option(head))
    } else {
        match sexp::atom_at(items, 1) {
            None => Err("footprint is missing its name"@),
            Some(name) => if name.len() == 0 {
                Err("footprint name is empty"@)
            } else {
                match pins_from(items, 0, Seq::empty(), rs) {
                    Err(e) => Err(e),
                    Ok(pins) => match graphics_from(items, 0, Seq::empty(), None, rs) {
                        Err(e) => Err(e),
                        Ok((graphics, courtyard)) => match texts_from(
                            items,
                            0,
                            Seq::empty(),
                            rs,
                        ) {
                            Err(e) => Err(e),
                            Ok(texts) => Ok(
                                PartV {
                                    name,
                                    pins,
                                    interfaces: Seq::empty(),
                                    graphics,
                                    texts,
                                    courtyard,
                                    class: None,
                                },
                            ),
                        },
                    },
                }
            },
        }
    }
}

/// The part that a footprint text describes.
pub open spec fn footprint(s: Seq<char>, rs: Seq<(Seq<char>, Num)>) -> Result<PartV, Seq<char>> {
    match sexp::parsed(s) {
        Err(e) => Err(e),
        Ok(SexpV::Atom(_)) => Err("top-level expression is not a list"@),
        Ok(SexpV::List(items)) => footprint_items(items, rs),
    }
}

fn parse_pad_pin(pad: &Vec<Sexp>, name: &str, rs: &Readings) -> (r: Result<PinDef, String>)
    requires
        number::readable(rs@),
    ensures
        primitive::agree_view(r, pad_pin(sexp::node_views(pad@), name@, rs@)),
{
    let at = match find_child(pad, "at") {
        Some(at) => at,
        None => {
            let q = debug_string(name);
            return Err(cat3("pad ", q.as_str(), " has no (at ...)"));
        },
    };
    if nth_atom(at, 1).is_none() {
        let q = debug_string(name);
        return Err(cat3("pad ", q.as_str(), " (at ...) missing x"));
    }
    if nth_atom(at, 2).is_none() {
        let q = debug_string(name);
        return Err(cat3("pad ", q.as_str(), " (at ...) missing y"));
    }
    let offset = match read_point(at, "", "") {
        Ok(p) => p,
        Err(e) => {
            return Err(e);
        },
    };
    match parse_pad_geometry(pad, offset, rs) {
        Err(e) => Err(e),
        Ok(geo) => Ok(
            PinDef {
                name: name.to_owned(),
                number: name.to_owned(),
                role: PinRole::Passive,
                offset,
                pad: geo,
            },
        ),
    }
}

/// Does some pin have this number?
pub fn has_number(pins: &Vec<PinDef>, n: &str) -> (r: bool)
    ensures
        r == numbered(part::pin_views(pins@), n@),
{
    let ghost ps = part::pin_views(pins@);
    let mut i: usize = 0;
    while i < pins.len()
        invariant
            i <= pins.len(),
            ps == part::pin_views(pins@),
            forall|k: int| 0 <= k < i ==> (#[trigger] ps[k]).number != n@,
        decreases pins.len() - i,
    {
        assert(ps[i as int] == pins@[i as int]@);
        if str_eq(pins[i].number.as_str(), n) {
            assert(ps[i as int].number == n@);
            return true;
        }
        i += 1;
    }
    false
}

fn parse_pins(items: &Vec<Sexp>, rs: &Readings) -> (r: Result<Vec<PinDef>, String>)
    requires
        number::readable(rs@),
    ensures
        match (r, pins_from(sexp::node_views(items@), 0, Seq::empty(), rs@)) {
            (Ok(v), Ok(w)) => part::pin_views(v@) == w,
            (Err(e), Err(m)) => e@ == m,
            _ => false,
        },
{
    let ghost v = sexp::node_views(items@);
    let mut pins: Vec<PinDef> = Vec::new();
    let mut i: usize = 0;
    assert(part::pin_views(pins@) =~= Seq::empty());
    while i < items.len()
        invariant
            i <= items.len(),
            v == sexp::node_views(items@),
            number::readable(rs@),
            pins_from(v, 0, Seq::empty(), rs@) == pins_from(
                v,
                i as int,
                part::pin_views(pins@),
                rs@,
            ),
        decreases items.len() - i,
    {
        assert(v[i as int] == items@[i as int]@);
        if let Some(pad) = items[i].list_headed("pad") {
            if let Some(name) = nth_atom(pad, 1) {
                let cs = chars_of(name);
                if cs.len() > 0 && !has_number(&pins, name) {
                    match parse_pad_pin(pad, name, rs) {
                        Err(e) => {
                            return Err(e);
                        },
                        Ok(pin) => {
                            let ghost done = part::pin_views(pins@);
                            let ghost one = pin@;
                            pins.push(pin);
                            assert(part::pin_views(pins@) =~= done.push(one));
                        },
                    }
                }
            }
        }
        i += 1;
    }
    Ok(pins)
}

fn drawn(l: &str) -> (r: bool)
    ensures
        r == is_drawn(l@),
{
    str_eq(l, "F.SilkS") || str_eq(l, "B.SilkS") || str_eq(l, "F.Fab") || str_eq(l, "B.Fab")
}

fn parse_graphics(items: &Vec<Sexp>, rs: &Readings) -> (r: Result<
    (Vec<FpGraphic>, Option<Shape2D>),
    String,
>)
    requires
        number::readable(rs@),
    ensures
        match (r, graphics_from(sexp::node_views(items@), 0, Seq::empty(), None, rs@)) {
            (Ok((g, c)), Ok((a, b))) => part::graphic_views(g@) == a && part::opt_shape(c) == b,
            (Err(e), Err(m)) => e@ == m,
            _ => false,
        },
{
    let ghost v = sexp::node_views(items@);
    let mut graphics: Vec<FpGraphic> = Vec::new();
    let mut court: Option<Shape2D> = None;
    let mut i: usize = 0;
    assert(part::graphic_views(graphics@) =~= Seq::empty());
    while i < items.len()
        invariant
            i <= items.len(),
            v == sexp::node_views(items@),
            number::readable(rs@),
            graphics_from(v, 0, Seq::empty(), None, rs@) == graphics_from(
                v,
                i as int,
                part::graphic_views(graphics@),
                part::opt_shape(court),
                rs@,
            ),
        decreases items.len() - i,
    {
        assert(v[i as int] == items@[i as int]@);
        match parse_fp_graphic(&items[i], rs) {
            Err(e) => {
                return Err(e);
            },
            Ok(None) => {},
            Ok(Some((shape, layer))) => {
                if drawn(layer.as_str()) {
                    let ghost done = part::graphic_views(graphics@);
                    let ghost one = GraphicV { shape: shape@, layer: layer@ };
                    graphics.push(FpGraphic { shape, layer });
                    assert(part::graphic_views(graphics@) =~= done.push(one));
                } else if str_eq(layer.as_str(), "F.CrtYd") || str_eq(
                    layer.as_str(),
                    "B.CrtYd",
                ) {
                    let filled = match &shape {
                        Shape2D::Polygon { .. } => true,
                        _ => false,
                    };
                    if filled {
                        court = Some(shape);
                    }
                }
            },
        }
        i += 1;
    }
    Ok((graphics, court))
}

fn parse_texts(items: &Vec<Sexp>, rs: &Readings) -> (r: Result<Vec<FpText>, String>)
    requires
        number::readable(rs@),
    ensures
        match (r, texts_from(sexp::node_views(items@), 0, Seq::empty(), rs@)) {
            (Ok(v), Ok(w)) => part::text_views(v@) == w,
            (Err(e), Err(m)) => e@ == m,
            _ => false,
        },
{
    let ghost v = sexp::node_views(items@);
    let mut texts: Vec<FpText> = Vec::new();
    let mut i: usize = 0;
    assert(part::text_views(texts@) =~= Seq::empty());
    while i < items.len()
        invariant
            i <= items.len(),
            v == sexp::node_views(items@),
            number::readable(rs@),
            texts_from(v, 0, Seq::empty(), rs@) == texts_from(
                v,
                i as int,
                part::text_views(texts@),
                rs@,
            ),
        decreases items.len() - i,
    {
        assert(v[i as int] == items@[i as int]@);
        match parse_fp_text(&items[i], rs) {
            Err(e) => {
                return Err(e);
            },
            Ok(None) => {},
            Ok(Some(t)) => {
                let ghost done = part::text_views(texts@);
                let ghost one = t@;
                texts.push(t);
                assert(part::text_views(texts@) =~= done.push(one));
            },
        }
        i += 1;
    }
    Ok(texts)
}

/// How an optional atom is shown in a complaint.
pub fn show_option(o: Option<&str>) -> (r: String)
    ensures
        r@ == shown_option(sexp::opt_text(o)),
{
    match o {
        Some(s) => {
            let q = debug_string(s);
            cat3("Some(", q.as_str(), ")")
        },
        None => "None".to_owned(),
    }
}

/// Import a footprint. Pads that share a name are one electrical pad, and the first is
/// kept; a pad without a name has no electrical identity and is skipped. Both the
/// `footprint` and the older `module` header are accepted. `rs` says what the angles and
/// ratios of the file mean.
pub fn import_footprint(text: &str, rs: &Readings) -> (r: Result<PartDef, String>)
    requires
        number::readable(rs@),
    ensures
        primitive::agree_view(r, footprint(text@, rs@)),
{
    let root = match parse(text) {
        Ok(x) => x,
        Err(e) => {
            return Err(e);
        },
    };
    let items = match root.as_list() {
        Some(v) => v,
        None => {
            return Err("top-level expression is not a list".to_owned());
        },
    };
    let head = nth_atom(items, 0);
    if !is_text(head, "footprint") && !is_text(head, "module") {
        let q = show_option(head);
        return Err(cat("expected 'footprint' or 'module', got ", q.as_str()));
    }
    let name = match nth_atom(items, 1) {
        Some(n) => n,
        None => {
            return Err("footprint is missing its name".to_owned());
        },
    };
    let cs = chars_of(name);
    if cs.len() == 0 {
        return Err("footprint name is empty".to_owned());
    }
    let pins = match parse_pins(items, rs) {
        Ok(v) => v,
        Err(e) => {
            return Err(e);
        },
    };
    let (graphics, courtyard) = match parse_graphics(items, rs) {
        Ok(g) => g,
        Err(e) => {
            return Err(e);
        },
    };
    let texts = match parse_texts(items, rs) {
        Ok(v) => v,
        Err(e) => {
            return Err(e);
        },
    };
    Ok(
        PartDef {
            name: name.to_owned(),
            pins,
            interfaces: NameMap::new(),
            graphics,
            texts,
            courtyard,
            class: None,
        },
    )
}

// ---------------------------------------------------------------------------
// Laws.
// ---------------------------------------------------------------------------

/// Pad numbers are not empty, each stands once, and each pin is passive and named by it.
pub open spec fn plain_pads(pins: Seq<PinV>) -> bool {
    &&& forall|i: int|
        0 <= i < pins.len() ==> {
            &&& (#[trigger] pins[i]).number.len() > 0
            &&& pins[i].name == pins[i].number
            &&& pins[i].role == PinRole::Passive
        }
    &&& forall|i: int, j: int|
        0 <= i < j < pins.len() ==> (#[trigger] pins[i]).number != (#[trigger] pins[j]).number
}

proof fn pins_stay_plain(
    items: Seq<SexpV>,
    i: int,
    done: Seq<PinV>,
    rs: Seq<(Seq<char>, Num)>,
)
    requires
        plain_pads(done),
        pins_from(items, i, done, rs) is Ok,
    ensures
        plain_pads(pins_from(items, i, done, rs)->Ok_0),
    decreases items.len() - i,
{
    if 0 <= i < items.len() {
        match sexp::headed(items[i], "pad"@) {
            None => {
                pins_stay_plain(items, i + 1, done, rs);
            },
            Some(pad) => {
                let name = or_empty(sexp::atom_at(pad, 1));
                if name.len() == 0 || numbered(done, name) {
                    pins_stay_plain(items, i + 1, done, rs);
                } else {
                    match pad_pin(pad, name, rs) {
                        Err(e) => {},
                        Ok(pin) => {
                            let more = done.push(pin);
                            assert forall|a: int, b: int| 0 <= a < b < more.len() implies (
                            #[trigger] more[a]).number != (#[trigger] more[b]).number by {
                                if b == done.len() {
                                    assert(done[a].number != name);
                                }
                            }
                            pins_stay_plain(items, i + 1, more, rs);
                        },
                    }
                }
            },
        }
    }
}

/// An imported footprint has one passive pin for each pad name, no interfaces and no
/// class.
pub proof fn imported_pads_are_plain(s: Seq<char>, rs: Seq<(Seq<char>, Num)>)
    requires
        footprint(s, rs) is Ok,
    ensures
        plain_pads(footprint(s, rs)->Ok_0.pins),
        footprint(s, rs)->Ok_0.interfaces.len() == 0,
        footprint(s, rs)->Ok_0.class is None,
        footprint(s, rs)->Ok_0.name.len() > 0,
{
    match sexp::parsed(s) {
        Ok(SexpV::List(items)) => {
            pins_stay_plain(items, 0, Seq::empty(), rs);
        },
        _ => {},
    }
}

} // verus!
