//! Exact incidence of points, segments and polylines.

use crate::coord::{Nm, Point};
use crate::geom::limits;
use crate::geom::limits::KERNEL_SAFE_COORD;
use crate::geom::path::MAX_TOL;
use crate::geom::seg;
use crate::geom::seg::{cross_of, on_seg, pt_seg_d2};
use crate::geom::shape;
use vstd::prelude::*;

verus! {

/// Two numbers of strictly opposite sign.
pub open spec fn opposite(x: int, y: int) -> bool {
    (x > 0 && y < 0) || (x < 0 && y > 0)
}

/// The segments cross properly, or an end of one lies on the other.
pub open spec fn crossing(a: Point, b: Point, c: Point, d: Point) -> bool {
    ||| (opposite(seg::cross(c, d, a), seg::cross(c, d, b)) && opposite(
        seg::cross(a, b, c),
        seg::cross(a, b, d),
    ))
    ||| seg::on_segment(c, d, a)
    ||| seg::on_segment(c, d, b)
    ||| seg::on_segment(a, b, c)
    ||| seg::on_segment(a, b, d)
}

/// The point is nearer to the segment than `t`, or exactly as near when touching counts.
pub open spec fn point_near(p: Point, a: Point, b: Point, t: int, strict: bool) -> bool {
    let (num, den) = seg::dist2(p, a, b);
    if strict {
        num < t * t * den
    } else {
        num <= t * t * den
    }
}

/// The segments are nearer than `t`, or exactly as near when touching counts.
pub open spec fn segs_near(
    a: Point,
    b: Point,
    c: Point,
    d: Point,
    t: int,
    strict: bool,
) -> bool {
    if crossing(a, b, c, d) {
        !strict || t > 0
    } else {
        ||| point_near(a, c, d, t, strict)
        ||| point_near(b, c, d, t, strict)
        ||| point_near(c, a, b, t, strict)
        ||| point_near(d, a, b, t, strict)
    }
}

/// The edges of a polyline; a lone point is an edge of its own.
pub open spec fn edges_of(path: Seq<Point>) -> Seq<(Point, Point)> {
    if path.len() == 0 {
        Seq::empty()
    } else {
        shape::open_edges(path)
    }
}

/// The point lies within `tol` of the polyline.
pub open spec fn on_polyline(p: Point, path: Seq<Point>, tol: int) -> bool {
    exists|i: int|
        0 <= i < edges_of(path).len() && #[trigger] edge_touches(
            (p, p),
            edges_of(path)[i],
            tol,
        )
}

/// Two edges lie within `tol` of each other.
pub open spec fn edge_touches(e: (Point, Point), f: (Point, Point), tol: int) -> bool {
    segs_near(e.0, e.1, f.0, f.1, tol, false)
}

/// The polylines lie within `tol` of each other somewhere.
pub open spec fn polylines_touch(p: Seq<Point>, q: Seq<Point>, tol: int) -> bool {
    exists|i: int, j: int|
        0 <= i < edges_of(p).len() && 0 <= j < edges_of(q).len() && #[trigger] edge_touches(
            edges_of(p)[i],
            edges_of(q)[j],
            tol,
        )
}

/// The tolerance can be squared within the kernel's range.
pub open spec fn tol_ok(t: int) -> bool {
    -MAX_TOL <= t <= MAX_TOL
}

/// Nearness is symmetric.
pub proof fn segs_near_symmetric(a: Point, b: Point, c: Point, d: Point, t: int, strict: bool)
    ensures
        segs_near(a, b, c, d, t, strict) == segs_near(c, d, a, b, t, strict),
{
}

/// Polylines touch each other mutually.
pub proof fn polylines_touch_symmetric(p: Seq<Point>, q: Seq<Point>, tol: int)
    ensures
        polylines_touch(p, q, tol) == polylines_touch(q, p, tol),
{
    if polylines_touch(p, q, tol) {
        let (i, j) = choose|i: int, j: int|
            0 <= i < edges_of(p).len() && 0 <= j < edges_of(q).len() && #[trigger] edge_touches(
                edges_of(p)[i],
                edges_of(q)[j],
                tol,
            );
        assert(edge_touches(edges_of(q)[j], edges_of(p)[i], tol));
    }
    if polylines_touch(q, p, tol) {
        let (i, j) = choose|i: int, j: int|
            0 <= i < edges_of(q).len() && 0 <= j < edges_of(p).len() && #[trigger] edge_touches(
                edges_of(q)[i],
                edges_of(p)[j],
                tol,
            );
        assert(edge_touches(edges_of(p)[j], edges_of(q)[i], tol));
    }
}

/// Do the segments cross, or touch with an end?
pub fn segments_intersect(a: Point, b: Point, c: Point, d: Point) -> (r: bool)
    requires
        limits::pt_exact(a),
        limits::pt_exact(b),
        limits::pt_exact(c),
        limits::pt_exact(d),
    ensures
        r == crossing(a, b, c, d),
{
    let d1: i128 = cross_of(c, d, a);
    let d2: i128 = cross_of(c, d, b);
    let d3: i128 = cross_of(a, b, c);
    let d4: i128 = cross_of(a, b, d);
    if ((d1 > 0 && d2 < 0) || (d1 < 0 && d2 > 0)) && ((d3 > 0 && d4 < 0) || (d3 < 0 && d4 > 0)) {
        return true;
    }
    (d1 == 0 && on_seg(c, d, a)) || (d2 == 0 && on_seg(c, d, b)) || (d3 == 0 && on_seg(a, b, c))
        || (d4 == 0 && on_seg(a, b, d))
}

/// Is the point nearer to the segment than `t`, or exactly as near when touching counts?
fn point_seg_near(p: Point, a: Point, b: Point, t: Nm, strict: bool) -> (r: bool)
    requires
        limits::pt_safe(p),
        limits::pt_safe(a),
        limits::pt_safe(b),
        tol_ok(t as int),
    ensures
        r == point_near(p, a, b, t as int, strict),
{
    let (num, den) = pt_seg_d2(p, a, b);
    let ghost (x, y) = (t as int, den as int);
    assert(0 <= x * x <= 13_024_881_000_000_000_000) by (nonlinear_arith)
        requires
            -3_609_000_000 <= x <= 3_609_000_000,
    ;
    let w: i128 = t as i128;
    let t2: i128 = w * w;
    let ghost k = t2 as int;
    assert(8 * KERNEL_SAFE_COORD * KERNEL_SAFE_COORD == 13_025_408_000_000_000_000);
    assert(0 <= k * y <= 170_141_183_460_469_231_731_687_303_715_884_105_727) by (nonlinear_arith)
        requires
            0 <= k <= 13_024_881_000_000_000_000,
            0 < y <= 13_025_408_000_000_000_000,
    ;
    let bound: i128 = t2 * den;
    if strict {
        num < bound
    } else {
        num <= bound
    }
}

/// Are the segments nearer than `t`, or exactly as near when touching counts?
pub fn seg_within(a: Point, b: Point, c: Point, d: Point, t: Nm, strict: bool) -> (r: bool)
    requires
        limits::pt_safe(a),
        limits::pt_safe(b),
        limits::pt_safe(c),
        limits::pt_safe(d),
        tol_ok(t as int),
    ensures
        r == segs_near(a, b, c, d, t as int, strict),
{
    if segments_intersect(a, b, c, d) {
        return !strict || t > 0;
    }
    point_seg_near(a, c, d, t, strict) || point_seg_near(b, c, d, t, strict) || point_seg_near(
        c,
        a,
        b,
        t,
        strict,
    ) || point_seg_near(d, a, b, t, strict)
}

/// The edges of a polyline; a lone point is an edge of its own.
pub fn segments(path: &Vec<Point>) -> (r: Vec<(Point, Point)>)
    ensures
        r@ == edges_of(path@),
{
    let mut out: Vec<(Point, Point)> = Vec::new();
    if path.len() == 0 {
        assert(out@ =~= edges_of(path@));
        return out;
    }
    if path.len() == 1 {
        out.push((path[0], path[0]));
        assert(out@ =~= edges_of(path@));
        return out;
    }
    let mut i: usize = 0;
    while i + 1 < path.len()
        invariant
            path.len() >= 2,
            i + 1 <= path.len(),
            out.len() == i,
            forall|k: int| 0 <= k < i ==> #[trigger] out@[k] == (path@[k], path@[k + 1]),
        decreases path.len() - i,
    {
        out.push((path[i], path[i + 1]));
        i += 1;
    }
    assert(out@ =~= edges_of(path@));
    out
}

/// Every end of the edges of a safe polyline is safe.
proof fn edges_are_safe(path: Seq<Point>)
    requires
        limits::all_safe(path),
    ensures
        forall|i: int|
            0 <= i < edges_of(path).len() ==> limits::pt_safe((#[trigger] edges_of(path)[i]).0)
                && limits::pt_safe(edges_of(path)[i].1),
{
    assert forall|i: int| 0 <= i < edges_of(path).len() implies limits::pt_safe(
        (#[trigger] edges_of(path)[i]).0,
    ) && limits::pt_safe(edges_of(path)[i].1) by {
        if path.len() == 1 {
            assert(limits::pt_safe(path[0]));
        } else {
            assert(limits::pt_safe(path[i]) && limits::pt_safe(path[i + 1]));
        }
    }
}

/// Does the point lie within `tol` of the polyline?
pub fn point_on_polyline(p: Point, path: &Vec<Point>, tol: Nm) -> (r: bool)
    requires
        limits::pt_safe(p),
        limits::all_safe(path@),
        tol_ok(tol as int),
    ensures
        r == on_polyline(p, path@, tol as int),
{
    let s = segments(path);
    proof {
        edges_are_safe(path@);
    }
    let mut i: usize = 0;
    while i < s.len()
        invariant
            i <= s.len(),
            s@ == edges_of(path@),
            limits::pt_safe(p),
            tol_ok(tol as int),
            forall|k: int|
                0 <= k < edges_of(path@).len() ==> limits::pt_safe(
                    (#[trigger] edges_of(path@)[k]).0,
                ) && limits::pt_safe(edges_of(path@)[k].1),
            forall|k: int|
                0 <= k < i ==> !#[trigger] edge_touches((p, p), edges_of(path@)[k], tol as int),
        decreases s.len() - i,
    {
        let (a, b) = s[i];
        assert(edges_of(path@)[i as int] == (a, b));
        if seg_within(p, p, a, b, tol, false) {
            assert(edge_touches((p, p), edges_of(path@)[i as int], tol as int));
            return true;
        }
        i += 1;
    }
    false
}

/// Do the polylines lie within `tol` of each other somewhere?
pub fn polylines_closer_than_inc(p: &Vec<Point>, q: &Vec<Point>, tol: Nm) -> (r: bool)
    requires
        limits::all_safe(p@),
        limits::all_safe(q@),
        tol_ok(tol as int),
    ensures
        r == polylines_touch(p@, q@, tol as int),
{
    let sp = segments(p);
    let sq = segments(q);
    let ghost (es, fs) = (edges_of(p@), edges_of(q@));
    proof {
        edges_are_safe(p@);
        edges_are_safe(q@);
    }
    let mut i: usize = 0;
    while i < sp.len()
        invariant
            i <= sp.len(),
            sp@ == es,
            sq@ == fs,
            es == edges_of(p@),
            fs == edges_of(q@),
            tol_ok(tol as int),
            forall|k: int|
                0 <= k < es.len() ==> limits::pt_safe((#[trigger] es[k]).0) && limits::pt_safe(
                    es[k].1,
                ),
            forall|k: int|
                0 <= k < fs.len() ==> limits::pt_safe((#[trigger] fs[k]).0) && limits::pt_safe(
                    fs[k].1,
                ),
            forall|k: int, l: int|
                0 <= k < i && 0 <= l < fs.len() ==> !#[trigger] edge_touches(
                    es[k],
                    fs[l],
                    tol as int,
                ),
        decreases sp.len() - i,
    {
        let (a, b) = sp[i];
        assert(es[i as int] == (a, b));
        let mut j: usize = 0;
        while j < sq.len()
            invariant
                i < sp.len(),
                j <= sq.len(),
                sp@ == es,
                sq@ == fs,
                es == edges_of(p@),
                fs == edges_of(q@),
                es[i as int] == (a, b),
                limits::pt_safe(a),
                limits::pt_safe(b),
                tol_ok(tol as int),
                forall|k: int|
                    0 <= k < fs.len() ==> limits::pt_safe((#[trigger] fs[k]).0)
                        && limits::pt_safe(fs[k].1),
                forall|l: int|
                    0 <= l < j ==> !#[trigger] edge_touches(es[i as int], fs[l], tol as int),
            decreases sq.len() - j,
        {
            let (c, d) = sq[j];
            assert(fs[j as int] == (c, d));
            if seg_within(a, b, c, d, tol, false) {
                assert(edge_touches(es[i as int], fs[j as int], tol as int));
                return true;
            }
            j += 1;
        }
        i += 1;
    }
    false
}

} // verus!
