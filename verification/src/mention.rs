//! What a directive measures, and which instances it mentions.

use crate::coord::{Nm, Point};
use crate::geom::shape;
use crate::geom::shape::ShapeV;
use crate::ir;
use crate::ir::GenDirective;
use vstd::prelude::*;

verus! {

/// The number is a component of the point.
pub open spec fn is_part_of(n: Nm, p: Point) -> bool {
    n == p.x || n == p.y
}

/// The number is a component of a point that the shape is defined by.
pub open spec fn is_drawn_with(s: ShapeV, n: Nm) -> bool {
    exists|i: int|
        0 <= i < shape::defining_points(s).len() && is_part_of(
            n,
            #[trigger] shape::defining_points(s)[i],
        )
}

/// The number is a coordinate or a length of the directive.
pub open spec fn measures(d: GenDirective, n: Nm) -> bool {
    ||| d matches GenDirective::Place { path, pos } && is_part_of(n, pos)
    ||| d matches GenDirective::Fix { path, pos } && is_part_of(n, pos)
    ||| d matches GenDirective::Board { outline } && is_drawn_with(outline@, n)
    ||| d matches GenDirective::Cutout { shape } && is_drawn_with(shape@, n)
    ||| d matches GenDirective::Region(r) && is_drawn_with(r.shape@, n)
    ||| d matches GenDirective::Hole { center, dia } && (is_part_of(n, center) || n == dia)
    ||| d matches GenDirective::Text { string, at, height, layer, orient } && (is_part_of(n, at)
        || n == height)
    ||| d matches GenDirective::Near { a, b, within } && n == within
    ||| d matches GenDirective::NearPin { a, b_comp, b_pin, within } && n == within
    ||| d matches GenDirective::MinSep { a, b, gap } && n == gap
    ||| d matches GenDirective::Slab(s) && (n == s.z.lo || n == s.z.hi)
}

proof fn components_are_of_points(pts: Seq<Point>, k: int) -> (i: int)
    requires
        0 <= k < ir::components(pts).len(),
    ensures
        0 <= i < pts.len(),
        is_part_of(ir::components(pts)[k], pts[i]),
    decreases pts.len(),
{
    let t = pts.drop_last();
    if k < ir::components(t).len() {
        let i = components_are_of_points(t, k);
        assert(t[i] == pts[i]);
        i
    } else {
        pts.len() - 1
    }
}

proof fn components_of_a_shape(s: ShapeV, n: Nm)
    ensures
        ir::components(shape::defining_points(s)).contains(n) <==> is_drawn_with(s, n),
{
    let pts = shape::defining_points(s);
    let c = ir::components(pts);
    if c.contains(n) {
        let k = choose|k: int| 0 <= k < c.len() && c[k] == n;
        let i = components_are_of_points(pts, k);
        assert(is_part_of(n, pts[i]));
    }
    if is_drawn_with(s, n) {
        let i = choose|i: int| 0 <= i < pts.len() && is_part_of(n, #[trigger] pts[i]);
        ir::components_hold_points(pts, i);
    }
}

/// The coordinates and lengths that are checked are those of the directive, all of them.
pub proof fn every_measure_is_checked(d: GenDirective, n: Nm)
    ensures
        ir::coords_of(d).contains(n) <==> measures(d, n),
{
    let c = ir::coords_of(d);
    match d {
        GenDirective::Board { outline } => components_of_a_shape(outline@, n),
        GenDirective::Cutout { shape } => components_of_a_shape(shape@, n),
        GenDirective::Region(r) => components_of_a_shape(r.shape@, n),
        _ => {
            if measures(d, n) {
                if c.len() >= 1 && c[0] == n {
                } else if c.len() >= 2 && c[1] == n {
                } else {
                    assert(c[2] == n);
                }
            }
        },
    }
}

/// The path is one of a list.
pub open spec fn is_listed(nodes: Seq<String>, p: Seq<char>) -> bool {
    exists|i: int| 0 <= i < nodes.len() && (#[trigger] nodes[i])@ == p
}

/// The path is that of one of the pins.
pub open spec fn has_pin_of(pins: Seq<(String, String)>, p: Seq<char>) -> bool {
    exists|i: int| 0 <= i < pins.len() && (#[trigger] pins[i]).0@ == p
}

/// The directive speaks of the instance at the path.
pub open spec fn mentions(d: GenDirective, p: Seq<char>) -> bool {
    ||| d matches GenDirective::Place { path, pos } && p == path@
    ||| d matches GenDirective::Fix { path, pos } && p == path@
    ||| d matches GenDirective::Rotate { path, orient } && p == path@
    ||| d matches GenDirective::Near { a, b, within } && (p == a@ || p == b@)
    ||| d matches GenDirective::MinSep { a, b, gap } && (p == a@ || p == b@)
    ||| d matches GenDirective::NearPin { a, b_comp, b_pin, within } && (p == a@ || p == b_comp@)
    ||| d matches GenDirective::AlignX { nodes } && is_listed(nodes@, p)
    ||| d matches GenDirective::AlignY { nodes } && is_listed(nodes@, p)
    ||| d matches GenDirective::ConnectInterface { a, b } && (p == a.0@ || p == b.0@)
    ||| d matches GenDirective::ConnectPins { net, pins } && has_pin_of(pins@, p)
    ||| d matches GenDirective::NoConnect { pins } && has_pin_of(pins@, p)
}

/// The path stands among the references.
pub open spec fn is_referred_to(refs: Seq<(Seq<char>, Seq<char>)>, p: Seq<char>) -> bool {
    exists|i: int| 0 <= i < refs.len() && (#[trigger] refs[i]).1 == p
}

proof fn listed_is_referred_to(what: Seq<char>, nodes: Seq<String>, p: Seq<char>)
    ensures
        is_referred_to(ir::contexts(what, nodes), p) <==> is_listed(nodes, p),
{
    let v = ir::contexts(what, nodes);
    if is_listed(nodes, p) {
        let i = choose|i: int| 0 <= i < nodes.len() && (#[trigger] nodes[i])@ == p;
        assert(v[i].1 == p);
    }
    if is_referred_to(v, p) {
        let i = choose|i: int| 0 <= i < v.len() && (#[trigger] v[i]).1 == p;
        assert(nodes[i]@ == p);
    }
}

proof fn pin_is_referred_to(what: Seq<char>, pins: Seq<(String, String)>, p: Seq<char>)
    ensures
        is_referred_to(ir::pin_contexts(what, pins), p) <==> has_pin_of(pins, p),
{
    let v = ir::pin_contexts(what, pins);
    if has_pin_of(pins, p) {
        let i = choose|i: int| 0 <= i < pins.len() && (#[trigger] pins[i]).0@ == p;
        assert(v[i].1 == p);
    }
    if is_referred_to(v, p) {
        let i = choose|i: int| 0 <= i < v.len() && (#[trigger] v[i]).1 == p;
        assert(pins[i].0@ == p);
    }
}

/// The references of a directive are the instances it speaks of, all of them.
pub proof fn every_mention_is_a_reference(d: GenDirective, p: Seq<char>)
    ensures
        is_referred_to(ir::refs_of(d), p) <==> mentions(d, p),
{
    let v = ir::refs_of(d);
    match d {
        GenDirective::AlignX { nodes } => listed_is_referred_to("alignx"@, nodes@, p),
        GenDirective::AlignY { nodes } => listed_is_referred_to("aligny"@, nodes@, p),
        GenDirective::ConnectPins { net, pins } => pin_is_referred_to(
            "net `"@ + net@ + "`"@,
            pins@,
            p,
        ),
        GenDirective::NoConnect { pins } => pin_is_referred_to("no-connect"@, pins@, p),
        _ => {
            if mentions(d, p) {
                if v[0].1 == p {
                } else {
                    assert(v[1].1 == p);
                }
            }
        },
    }
}

} // verus!
