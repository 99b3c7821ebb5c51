//! Import of a board outline: the edges drawn on the cut layer, stitched into closed
//! loops. The largest loop is the outline and the others are cutouts.

use super::footprint;
use super::footprint::show_option;
use super::number;
use super::number::{dist_nm, shift, Num, Readings};
use super::primitive;
use super::primitive::{gr_arc_points, head_is, need_xy};
use super::sexp;
use super::sexp::{find_child_atom, nth_atom, parse, Sexp, SexpV};
use crate::coord::{Nm, Point};
use crate::geom::limits::{point_kernel_safe, point_round, DEFAULT_CHORD_TOL};
use crate::geom::path;
use crate::geom::path::{Path, PathV, Seg};
use crate::geom::polygon;
use crate::geom::polygon::checked_area2;
use crate::geom::shape;
use crate::geom::shape::{Shape2D, ShapeV};
use crate::text::{cat, str_eq};
use vstd::prelude::*;

verus! {

/// How far apart two edge ends may be to count as joined: 1 µm.
pub const TOUCH_TOL: Nm = 1_000;

/// One drawn edge, without a direction; an arc has a point in its middle.
#[derive(Clone, Copy, Debug, PartialEq, Eq, Structural)]
pub struct EdgeSeg {
    pub a: Point,
    pub b: Point,
    pub mid: Option<Point>,
}

// ---------------------------------------------------------------------------
// Stitching.
// ---------------------------------------------------------------------------

/// Two points no further apart than the touch tolerance.
pub open spec fn touching(p: Point, q: Point) -> bool {
    (p.x - q.x) * (p.x - q.x) + (p.y - q.y) * (p.y - q.y) <= TOUCH_TOL * TOUCH_TOL
}

/// Where walking an edge from `from` ends.
pub open spec fn far_end(e: EdgeSeg, from: Point) -> Point {
    if touching(from, e.a) {
        e.b
    } else {
        e.a
    }
}

/// An edge as walked from `from`.
pub open spec fn walked(e: EdgeSeg, from: Point) -> Seg {
    match e.mid {
        Some(mid) => Seg::Arc { mid, end: far_end(e, from) },
        None => Seg::Line { end: far_end(e, from) },
    }
}

/// An edge has an end at `p`.
pub open spec fn ends_at(e: EdgeSeg, p: Point) -> bool {
    touching(e.a, p) || touching(e.b, p)
}

/// The position of the first edge with an end at `p`, or the length.
pub open spec fn edge_at(edges: Seq<EdgeSeg>, p: Point) -> int
    decreases edges.len(),
{
    if edges.len() == 0 {
        0
    } else if ends_at(edges[0], p) {
        0
    } else {
        1 + edge_at(edges.skip(1), p)
    }
}

/// Follow edges from `cur` until the chain is back at `start`: the edges walked, and those
/// left over.
pub open spec fn chain(edges: Seq<EdgeSeg>, segs: Seq<Seg>, start: Point, cur: Point) -> Result<
    (Seq<Seg>, Seq<EdgeSeg>),
    Seq<char>,
>
    decreases edges.len(),
{
    let i = edge_at(edges, cur);
    if touching(cur, start) {
        Ok((segs, edges))
    } else if i < 0 || i >= edges.len() {
        Err("Edge.Cuts segments do not form a closed loop (open contour)"@)
    } else {
        chain(edges.remove(i), segs.push(walked(edges[i], cur)), start, far_end(edges[i], cur))
    }
}

/// A closed chain as the path of a polygon: a closing straight edge is the polygon's own
/// and is left out, unless fewer than three edges would show.
pub open spec fn closed_path(start: Point, segs: Seq<Seg>) -> PathV {
    PathV {
        start,
        segs: if segs.len() >= 3 && segs.last() is Line {
            segs.drop_last()
        } else {
            segs
        },
    }
}

/// The loops of the edges, behind those already there. Each starts with the last edge.
pub open spec fn stitched(edges: Seq<EdgeSeg>, done: Seq<PathV>) -> Result<Seq<PathV>, Seq<char>>
    decreases edges.len(),
{
    if edges.len() == 0 {
        Ok(done)
    } else {
        let first = edges.last();
        match chain(
            edges.drop_last(),
            seq![walked(first, first.a)],
            first.a,
            far_end(first, first.a),
        ) {
            Err(e) => Err(e),
            Ok((segs, rest)) => if rest.len() < edges.len() {
                stitched(rest, done.push(closed_path(first.a, segs)))
            } else {
                Ok(done)
            },
        }
    }
}

/// A chain takes each edge once: those walked and those left over are as many as there
/// were. It ends where it started, within the touch tolerance.
pub proof fn chain_closes(edges: Seq<EdgeSeg>, segs: Seq<Seg>, start: Point, cur: Point)
    requires
        chain(edges, segs, start, cur) is Ok,
        segs.len() > 0,
        path::seg_end(segs.last()) == cur,
    ensures
        ({
            let (walk, rest) = chain(edges, segs, start, cur)->Ok_0;
            &&& walk.len() + rest.len() == segs.len() + edges.len()
            &&& walk.len() >= segs.len()
            &&& walk.take(segs.len() as int) == segs
            &&& touching(path::seg_end(walk.last()), start)
        }),
    decreases edges.len(),
{
    let i = edge_at(edges, cur);
    if touching(cur, start) {
        assert(segs.take(segs.len() as int) =~= segs);
    } else if 0 <= i < edges.len() {
        let more = segs.push(walked(edges[i], cur));
        chain_closes(edges.remove(i), more, start, far_end(edges[i], cur));
        let (walk, rest) = chain(edges, segs, start, cur)->Ok_0;
        assert(walk.take(segs.len() as int) =~= walk.take(more.len() as int).take(
            segs.len() as int,
        ));
        assert(more.take(segs.len() as int) =~= segs);
    }
}

/// A straight edge that is left implicit ends at the start, so the polygon still passes
/// through every point the chain passed through.
pub proof fn closing_keeps_the_loop(start: Point, segs: Seq<Seg>)
    requires
        segs.len() > 0,
        touching(path::seg_end(segs.last()), start),
    ensures
        closed_path(start, segs).start == start,
        closed_path(start, segs).segs == segs || (segs.last() is Line && closed_path(
            start,
            segs,
        ).segs.push(segs.last()) == segs),
{
    assert(segs.drop_last().push(segs.last()) =~= segs);
}

/// Are two points no further apart than the touch tolerance?
pub fn near(p: Point, q: Point) -> (r: bool)
    ensures
        r == touching(p, q),
{
    let dx: i128 = p.x as i128 - q.x as i128;
    let dy: i128 = p.y as i128 - q.y as i128;
    let ghost (x, y) = (dx as int, dy as int);
    let tol: i128 = TOUCH_TOL as i128;
    if dx > tol || dx < -tol {
        assert(x * x + y * y > 1_000_000) by (nonlinear_arith)
            requires
                x > 1_000 || x < -1_000,
        ;
        return false;
    }
    if dy > tol || dy < -tol {
        assert(x * x + y * y > 1_000_000) by (nonlinear_arith)
            requires
                y > 1_000 || y < -1_000,
        ;
        return false;
    }
    assert(-1_000_000 <= x * x <= 1_000_000) by (nonlinear_arith)
        requires
            -1_000 <= x <= 1_000,
    ;
    assert(-1_000_000 <= y * y <= 1_000_000) by (nonlinear_arith)
        requires
            -1_000 <= y <= 1_000,
    ;
    dx * dx + dy * dy <= tol * tol
}

impl EdgeSeg {
    /// The edge as walked from `from`, and where it ends.
    pub fn seg_from(&self, from: Point) -> (r: (Seg, Point))
        ensures
            r.0 == walked(*self, from),
            r.1 == far_end(*self, from),
    {
        let end = if near(from, self.a) {
            self.b
        } else {
            self.a
        };
        match self.mid {
            Some(mid) => (Seg::Arc { mid, end }, end),
            None => (Seg::Line { end }, end),
        }
    }
}

fn find_edge(edges: &Vec<EdgeSeg>, p: Point) -> (r: usize)
    ensures
        r == edge_at(edges@, p),
        r <= edges.len(),
{
    let ghost v = edges@;
    let mut i: usize = 0;
    assert(v.skip(0) =~= v);
    while i < edges.len()
        invariant
            i <= edges.len(),
            v == edges@,
            edge_at(v, p) == i + edge_at(v.skip(i as int), p),
        decreases edges.len() - i,
    {
        proof {
            assert(v.skip(i as int)[0] == v[i as int]);
            assert(v.skip(i as int).skip(1) =~= v.skip(i + 1));
        }
        if near(edges[i].a, p) || near(edges[i].b, p) {
            return i;
        }
        i += 1;
    }
    i
}

/// The values of a list of paths.
pub open spec fn path_views(v: Seq<Path>) -> Seq<PathV> {
    Seq::new(v.len(), |i: int| v[i]@)
}

/// Chain edges into closed loops by their ends. An edge without a continuation is an open
/// contour, which is no boundary.
pub fn stitch_loops(edges: Vec<EdgeSeg>, loops: Vec<Path>) -> (r: Result<Vec<Path>, String>)
    ensures
        match (r, stitched(edges@, path_views(loops@))) {
            (Ok(v), Ok(w)) => path_views(v@) == w,
            (Err(e), Err(m)) => e@ == m,
            _ => false,
        },
{
    let mut left = edges;
    let mut out = loops;
    let ghost want = stitched(edges@, path_views(loops@));
    while left.len() > 0
        invariant
            want == stitched(edges@, path_views(loops@)),
            want == stitched(left@, path_views(out@)),
        decreases left.len(),
    {
        let ghost before = left@;
        let ghost done = path_views(out@);
        let n = left.len();
        let first = left[n - 1];
        left.pop();
        assert(left@ == before.drop_last());
        let start = first.a;
        let (seg0, next) = first.seg_from(start);
        let mut cur = next;
        let mut segs: Vec<Seg> = Vec::new();
        segs.push(seg0);
        assert(segs@ =~= seq![walked(first, first.a)]);
        let ghost whole = chain(left@, segs@, start, cur);
        while !near(cur, start)
            invariant
                left.len() < n,
                want == stitched(edges@, path_views(loops@)),
                want == stitched(before, done),
                before.len() == n,
                before.len() > 0,
                start == before.last().a,
                whole == chain(
                    before.drop_last(),
                    seq![walked(before.last(), start)],
                    start,
                    far_end(before.last(), start),
                ),
                whole == chain(left@, segs@, start, cur),
            decreases left.len(),
        {
            let i = find_edge(&left, cur);
            if i == left.len() {
                return Err("Edge.Cuts segments do not form a closed loop (open contour)".to_owned());
            }
            let ghost seen = left@;
            let e = left.remove(i);
            assert(left@ =~= seen.remove(i as int));
            let (seg, far) = e.seg_from(cur);
            segs.push(seg);
            cur = far;
        }
        if segs.len() >= 3 {
            let straight = match segs[segs.len() - 1] {
                Seg::Line { .. } => true,
                _ => false,
            };
            if straight {
                let ghost all = segs@;
                segs.pop();
                assert(segs@ =~= all.drop_last());
            }
        }
        let p = Path { start, segs };
        let ghost pv = p@;
        out.push(p);
        assert(path_views(out@) =~= done.push(pv));
    }
    Ok(out)
}

// ---------------------------------------------------------------------------
// The outline.
// ---------------------------------------------------------------------------

/// The path of the whole circle about `c` through `e`, by its four axis points.
pub open spec fn circle_path(c: Point, e: Point) -> PathV {
    let r = number::distance(c, e);
    let right = number::shifted(c, r, 0);
    PathV {
        start: right,
        segs: seq![
            Seg::Arc { mid: number::shifted(c, 0, r), end: number::shifted(c, -r, 0) },
            Seg::Arc { mid: number::shifted(c, 0, -r), end: right },
        ],
    }
}

/// The loop of a drawn circle.
pub open spec fn circle_of(list: Seq<SexpV>) -> Result<PathV, Seq<char>> {
    match primitive::needed(list, "center"@, "gr_circle missing (center …)"@) {
        Err(e) => Err(e),
        Ok(c) => match primitive::needed(list, "end"@, "gr_circle missing (end …)"@) {
            Err(e) => Err(e),
            Ok(e) => if number::distance(c, e) <= 0 {
                Err("gr_circle has zero radius"@)
            } else {
                Ok(circle_path(c, e))
            },
        },
    }
}

/// The edge of a drawn line.
pub open spec fn line_of(list: Seq<SexpV>) -> Result<EdgeSeg, Seq<char>> {
    match primitive::needed(list, "start"@, "gr_line missing (start …)"@) {
        Err(e) => Err(e),
        Ok(a) => match primitive::needed(list, "end"@, "gr_line missing (end …)"@) {
            Err(e) => Err(e),
            Ok(b) => Ok(EdgeSeg { a, b, mid: None }),
        },
    }
}

/// The edge of a drawn arc.
pub open spec fn arc_of(list: Seq<SexpV>, rs: Seq<(Seq<char>, Num)>) -> Result<
    EdgeSeg,
    Seq<char>,
> {
    match primitive::arc_points(list, Point { x: 0, y: 0 }, rs) {
        Err(e) => Err(e),
        Ok((s, m, e)) => Ok(EdgeSeg { a: s, b: e, mid: Some(m) }),
    }
}

/// The graphic stands on the cut layer.
pub open spec fn on_cut_layer(list: Seq<SexpV>) -> bool {
    sexp::child_atom(list, "layer"@, 1) == Some("Edge.Cuts"@)
}

/// What the items from `i` on draw on the cut layer, behind what is already there: open
/// edges, and whole circles.
pub open spec fn drawn_from(
    items: Seq<SexpV>,
    i: int,
    edges: Seq<EdgeSeg>,
    loops: Seq<PathV>,
    rs: Seq<(Seq<char>, Num)>,
) -> Result<(Seq<EdgeSeg>, Seq<PathV>), Seq<char>>
    decreases items.len() - i,
{
    if i < 0 || i >= items.len() {
        Ok((edges, loops))
    } else {
        match items[i] {
            SexpV::Atom(_) => drawn_from(items, i + 1, edges, loops, rs),
            SexpV::List(list) => {
                let head = sexp::atom_at(list, 0);
                if head == Some("gr_line"@) && on_cut_layer(list) {
                    match line_of(list) {
                        Err(e) => Err(e),
                        Ok(e) => drawn_from(items, i + 1, edges.push(e), loops, rs),
                    }
                } else if head == Some("gr_arc"@) && on_cut_layer(list) {
                    match arc_of(list, rs) {
                        Err(e) => Err(e),
                        Ok(e) => drawn_from(items, i + 1, edges.push(e), loops, rs),
                    }
                } else if head == Some("gr_circle"@) && on_cut_layer(list) {
                    match circle_of(list) {
                        Err(e) => Err(e),
                        Ok(p) => drawn_from(items, i + 1, edges, loops.push(p), rs),
                    }
                } else {
                    drawn_from(items, i + 1, edges, loops, rs)
                }
            },
        }
    }
}

/// Twice the area of the polygon of a path, without its sign.
#[verifier::opaque]
pub open spec fn area_of(p: PathV) -> int {
    let a = polygon::area2(path::flat(p, DEFAULT_CHORD_TOL as int));
    if a < 0 {
        -a
    } else {
        a
    }
}

/// The path can be flattened, and the area of its polygon summed exactly.
pub open spec fn loop_safe(p: PathV) -> bool {
    path::flattenable(p) && polygon::area_fits(path::flat(p, DEFAULT_CHORD_TOL as int))
}

/// How many paths at the front have at least that area.
pub open spec fn area_rank(v: Seq<PathV>, a: int) -> int
    decreases v.len(),
{
    if v.len() == 0 {
        0
    } else if area_of(v[0]) >= a {
        1 + area_rank(v.skip(1), a)
    } else {
        0
    }
}

/// The first `k` paths by falling area; equal areas keep their order.
pub open spec fn by_area(v: Seq<PathV>, k: nat) -> Seq<PathV>
    decreases k,
{
    if k == 0 {
        Seq::empty()
    } else {
        let done = by_area(v, (k - 1) as nat);
        done.insert(area_rank(done, area_of(v[k - 1])), v[k - 1])
    }
}

/// The loops, largest first, that the items of a board draw.
pub open spec fn board_loops(items: Seq<SexpV>, rs: Seq<(Seq<char>, Num)>) -> Result<
    Seq<PathV>,
    Seq<char>,
> {
    let head = sexp::atom_at(items, 0);
    if head != Some("kicad_pcb"@) {
        Err("expected '(kicad_pcb …)', got "@ + footprint::shown_option(head))
    } else {
        match drawn_from(items, 0, Seq::empty(), Seq::empty(), rs) {
            Err(e) => Err(e),
            Ok((edges, circles)) => if edges.len() == 0 && circles.len() == 0 {
                Err("no Edge.Cuts graphics found in board"@)
            } else {
                match stitched(edges, circles) {
                    Err(e) => Err(e),
                    Ok(loops) => if exists|i: int|
                        0 <= i < loops.len() && !#[trigger] loop_safe(loops[i]) {
                        Err("Edge.Cuts leaves the range of exact arithmetic"@)
                    } else {
                        Ok(by_area(loops, loops.len()))
                    },
                }
            },
        }
    }
}

/// The loops, largest first, of a board text.
pub open spec fn outline_loops(s: Seq<char>, rs: Seq<(Seq<char>, Num)>) -> Result<
    Seq<PathV>,
    Seq<char>,
> {
    match sexp::parsed(s) {
        Err(e) => Err(e),
        Ok(SexpV::Atom(_)) => Err("top-level expression is not a list"@),
        Ok(SexpV::List(items)) => board_loops(items, rs),
    }
}

/// A polygon of a path, with sharp corners.
pub open spec fn loop_shape(p: PathV) -> ShapeV {
    ShapeV::Polygon { path: p, radius: 0 }
}

// ---------------------------------------------------------------------------
// Laws.
// ---------------------------------------------------------------------------

/// Areas fall along the list.
pub open spec fn falling(v: Seq<PathV>) -> bool {
    forall|i: int, j: int|
        0 <= i < j < v.len() ==> area_of(#[trigger] v[i]) >= area_of(#[trigger] v[j])
}

proof fn area_rank_splits(v: Seq<PathV>, a: int)
    ensures
        0 <= area_rank(v, a) <= v.len(),
        forall|i: int| 0 <= i < area_rank(v, a) ==> area_of(#[trigger] v[i]) >= a,
        area_rank(v, a) < v.len() ==> area_of(v[area_rank(v, a)]) < a,
    decreases v.len(),
{
    if v.len() > 0 && area_of(v[0]) >= a {
        area_rank_splits(v.skip(1), a);
        assert forall|i: int| 0 <= i < area_rank(v, a) implies area_of(#[trigger] v[i]) >= a by {
            if i > 0 {
                assert(v.skip(1)[i - 1] == v[i]);
            }
        }
    }
}

proof fn insertion_keeps_falling(v: Seq<PathV>, x: PathV)
    requires
        falling(v),
    ensures
        0 <= area_rank(v, area_of(x)) <= v.len(),
        falling(v.insert(area_rank(v, area_of(x)), x)),
{
    let at = area_rank(v, area_of(x));
    area_rank_splits(v, area_of(x));
    let all = v.insert(at, x);
    assert forall|i: int, j: int| 0 <= i < j < all.len() implies area_of(#[trigger] all[i])
        >= area_of(#[trigger] all[j]) by {
        if i < at {
            assert(all[i] == v[i]);
            if j < at {
                assert(all[j] == v[j]);
            } else if j > at {
                assert(all[j] == v[j - 1]);
            }
        } else if i == at {
            assert(all[j] == v[j - 1]);
            if at < j - 1 {
                assert(area_of(v[at]) >= area_of(v[j - 1]));
            }
        } else {
            assert(all[i] == v[i - 1] && all[j] == v[j - 1]);
        }
    }
}

/// The loops come largest first, and they are the loops that went in: the outline is no
/// smaller than any cutout.
#[verifier::spinoff_prover]
pub proof fn largest_loop_comes_first(v: Seq<PathV>, k: nat)
    requires
        k <= v.len(),
    ensures
        falling(by_area(v, k)),
        by_area(v, k).to_multiset() == v.take(k as int).to_multiset(),
        by_area(v, k).len() == k,
    decreases k,
{
    if k == 0 {
        assert(by_area(v, 0) =~= v.take(0));
    } else {
        let done = by_area(v, (k - 1) as nat);
        let x = v[k - 1];
        let at = area_rank(done, area_of(x));
        largest_loop_comes_first(v, (k - 1) as nat);
        insertion_keeps_falling(done, x);
        vstd::seq_lib::to_multiset_insert(done, at, x);
        vstd::seq_lib::to_multiset_insert(v.take(k - 1), k - 1, x);
        assert(v.take(k as int) =~= v.take(k - 1).insert(k - 1, x));
    }
}

/// Stitching keeps the loops it was given and yields one for the edges, if there are any.
proof fn stitching_adds(edges: Seq<EdgeSeg>, done: Seq<PathV>)
    requires
        stitched(edges, done) is Ok,
    ensures
        stitched(edges, done)->Ok_0.len() >= done.len(),
        edges.len() > 0 ==> stitched(edges, done)->Ok_0.len() > done.len(),
    decreases edges.len(),
{
    if edges.len() > 0 {
        let first = edges.last();
        let segs = seq![walked(first, first.a)];
        match chain(edges.drop_last(), segs, first.a, far_end(first, first.a)) {
            Err(e) => {},
            Ok((walk, rest)) => {
                chain_closes(edges.drop_last(), segs, first.a, far_end(first, first.a));
                stitching_adds(rest, done.push(closed_path(first.a, walk)));
            },
        }
    }
}

// ---------------------------------------------------------------------------
// The importer.
// ---------------------------------------------------------------------------

fn circle_loop(list: &Vec<Sexp>) -> (r: Result<Path, String>)
    ensures
        primitive::agree_view(r, circle_of(sexp::node_views(list@))),
{
    let c = match need_xy(list, "center", "gr_circle missing (center …)") {
        Ok(p) => p,
        Err(e) => {
            return Err(e);
        },
    };
    let e = match need_xy(list, "end", "gr_circle missing (end …)") {
        Ok(p) => p,
        Err(e) => {
            return Err(e);
        },
    };
    let r: Nm = dist_nm(c, e);
    if r <= 0 {
        return Err("gr_circle has zero radius".to_owned());
    }
    let w: i128 = r as i128;
    let right = shift(c, w, 0);
    let back: i128 = -w;
    let mut segs: Vec<Seg> = Vec::new();
    segs.push(Seg::Arc { mid: shift(c, 0, w), end: shift(c, back, 0) });
    segs.push(Seg::Arc { mid: shift(c, 0, back), end: right });
    let p = Path { start: right, segs };
    assert(p@.segs =~= circle_path(c, e).segs);
    Ok(p)
}

fn line_edge(list: &Vec<Sexp>) -> (r: Result<EdgeSeg, String>)
    ensures
        primitive::agree(r, line_of(sexp::node_views(list@))),
{
    match need_xy(list, "start", "gr_line missing (start …)") {
        Err(e) => Err(e),
        Ok(a) => match need_xy(list, "end", "gr_line missing (end …)") {
            Err(e) => Err(e),
            Ok(b) => Ok(EdgeSeg { a, b, mid: None }),
        },
    }
}

fn arc_edge(list: &Vec<Sexp>, rs: &Readings) -> (r: Result<EdgeSeg, String>)
    requires
        number::readable(rs@),
    ensures
        primitive::agree(r, arc_of(sexp::node_views(list@), rs@)),
{
    match gr_arc_points(list, Point { x: 0, y: 0 }, rs) {
        Err(e) => Err(e),
        Ok((s, m, e)) => Ok(EdgeSeg { a: s, b: e, mid: Some(m) }),
    }
}

/// Does the graphic stand on the cut layer?
fn on_edge_cuts(list: &Vec<Sexp>) -> (r: bool)
    ensures
        r == on_cut_layer(sexp::node_views(list@)),
{
    match find_child_atom(list, "layer", 1) {
        Some(l) => str_eq(l, "Edge.Cuts"),
        None => false,
    }
}

fn collect(items: &Vec<Sexp>, rs: &Readings) -> (r: Result<(Vec<EdgeSeg>, Vec<Path>), String>)
    requires
        number::readable(rs@),
    ensures
        match (r, drawn_from(sexp::node_views(items@), 0, Seq::empty(), Seq::empty(), rs@)) {
            (Ok((e, l)), Ok((a, b))) => e@ == a && path_views(l@) == b,
            (Err(e), Err(m)) => e@ == m,
            _ => false,
        },
{
    let ghost v = sexp::node_views(items@);
    let mut edges: Vec<EdgeSeg> = Vec::new();
    let mut loops: Vec<Path> = Vec::new();
    let mut i: usize = 0;
    assert(path_views(loops@) =~= Seq::empty());
    while i < items.len()
        invariant
            i <= items.len(),
            v == sexp::node_views(items@),
            number::readable(rs@),
            drawn_from(v, 0, Seq::empty(), Seq::empty(), rs@) == drawn_from(
                v,
                i as int,
                edges@,
                path_views(loops@),
                rs@,
            ),
        decreases items.len() - i,
    {
        assert(v[i as int] == items@[i as int]@);
        if let Some(list) = items[i].as_list() {
            let cut = on_edge_cuts(list);
            if cut && head_is(list, "gr_line") {
                match line_edge(list) {
                    Err(e) => {
                        return Err(e);
                    },
                    Ok(e) => {
                        edges.push(e);
                    },
                }
            } else if cut && head_is(list, "gr_arc") {
                match arc_edge(list, rs) {
                    Err(e) => {
                        return Err(e);
                    },
                    Ok(e) => {
                        edges.push(e);
                    },
                }
            } else if cut && head_is(list, "gr_circle") {
                match circle_loop(list) {
                    Err(e) => {
                        return Err(e);
                    },
                    Ok(p) => {
                        let ghost done = path_views(loops@);
                        let ghost one = p@;
                        loops.push(p);
                        assert(path_views(loops@) =~= done.push(one));
                    },
                }
            }
        }
        i += 1;
    }
    Ok((edges, loops))
}

fn edge_is_flattenable(from: Point, s: Seg, Ghost(p): Ghost<PathV>, Ghost(i): Ghost<int>) -> (r: bool)
    requires
        from == path::path_at(p, i),
        s == p.segs[i],
    ensures
        r == path::edge_flattenable(p, i),
{
    let ghost pts = path::seg_points(s);
    match s {
        Seg::Line { .. } => true,
        Seg::Arc { mid, end } => point_round(from) && point_round(mid) && point_round(end),
        Seg::Quadratic { ctrl, end } => {
            assert(pts[0] == ctrl && pts[1] == end);
            point_kernel_safe(from) && point_kernel_safe(ctrl) && point_kernel_safe(end)
        },
        Seg::Cubic { c1, c2, end } => {
            assert(pts[0] == c1 && pts[1] == c2 && pts[2] == end);
            point_kernel_safe(from) && point_kernel_safe(c1) && point_kernel_safe(c2)
                && point_kernel_safe(end)
        },
    }
}

fn is_flattenable(p: &Path) -> (r: bool)
    ensures
        r == path::flattenable(p@),
{
    let mut cur = p.start;
    let mut i: usize = 0;
    while i < p.segs.len()
        invariant
            i <= p.segs.len(),
            cur == path::path_at(p@, i as int),
            forall|k: int| 0 <= k < i ==> #[trigger] path::edge_flattenable(p@, k),
        decreases p.segs.len() - i,
    {
        let s = p.segs[i];
        if !edge_is_flattenable(cur, s, Ghost(p@), Ghost(i as int)) {
            return false;
        }
        cur = s.end();
        i += 1;
    }
    true
}

/// Twice the area of a closed loop, without its sign, over its flattened points; `None`
/// where it cannot be summed exactly.
pub fn loop_area(shape: &Shape2D) -> (r: Option<i128>)
    requires
        !(shape@ is Area),
    ensures
        match r {
            Some(a) => loop_safe(shape::path_of(shape@)) && a == area_of(shape::path_of(shape@)),
            None => !loop_safe(shape::path_of(shape@)),
        },
{
    let path = shape.path();
    if !is_flattenable(path) {
        return None;
    }
    let pts = path.flatten(DEFAULT_CHORD_TOL);
    proof {
        reveal(area_of);
        if polygon::area_fits(pts@) {
            assert(i128::MIN < polygon::area2_prefix(pts@, pts@.len()));
        }
    }
    match checked_area2(&pts) {
        Some(a) => Some(
            if a < 0 {
                -a
            } else {
                a
            },
        ),
        None => None,
    }
}

/// The values of a list of shapes with their areas.
spec fn sized(v: Seq<(i128, Shape2D)>, w: Seq<PathV>) -> bool {
    &&& v.len() == w.len()
    &&& forall|i: int|
        0 <= i < v.len() ==> (#[trigger] v[i]).0 == area_of(w[i]) && v[i].1@ == loop_shape(w[i])
}

fn find_rank(v: &Vec<(i128, Shape2D)>, a: i128, Ghost(w): Ghost<Seq<PathV>>) -> (r: usize)
    requires
        sized(v@, w),
    ensures
        r == area_rank(w, a as int),
        r <= v.len(),
{
    let mut i: usize = 0;
    assert(w.skip(0) =~= w);
    while i < v.len() && v[i].0 >= a
        invariant
            i <= v.len(),
            sized(v@, w),
            area_rank(w, a as int) == i + area_rank(w.skip(i as int), a as int),
        decreases v.len() - i,
    {
        assert(w.skip(i as int)[0] == w[i as int]);
        assert(w.skip(i as int).skip(1) =~= w.skip(i + 1));
        i += 1;
    }
    proof {
        if i < v.len() {
            assert(w.skip(i as int)[0] == w[i as int]);
        }
    }
    i
}

/// The loops as polygons, largest first.
fn sort_loops(loops: Vec<Path>) -> (r: Option<Vec<(i128, Shape2D)>>)
    ensures
        match r {
            Some(v) => (forall|i: int|
                0 <= i < loops.len() ==> #[trigger] loop_safe(path_views(loops@)[i])) && sized(
                v@,
                by_area(path_views(loops@), loops@.len()),
            ),
            None => exists|i: int|
                0 <= i < loops.len() && !#[trigger] loop_safe(path_views(loops@)[i]),
        },
{
    let ghost ps = path_views(loops@);
    let mut out: Vec<(i128, Shape2D)> = Vec::new();
    let mut i: usize = 0;
    while i < loops.len()
        invariant
            i <= loops.len(),
            ps == path_views(loops@),
            forall|k: int| 0 <= k < i ==> #[trigger] loop_safe(ps[k]),
            sized(out@, by_area(ps, i as nat)),
        decreases loops.len() - i,
    {
        let p = &loops[i];
        assert(ps[i as int] == p@);
        let shape = Shape2D::polygon_path(p.clone(), 0);
        let a: i128 = match loop_area(&shape) {
            Some(a) => a,
            None => {
                assert(!loop_safe(ps[i as int]));
                return None;
            },
        };
        let ghost done = by_area(ps, i as nat);
        let ghost seen = out@;
        let at = find_rank(&out, a, Ghost(done));
        out.insert(at, (a, shape));
        proof {
            let w = by_area(ps, (i + 1) as nat);
            assert(w == done.insert(at as int, ps[i as int]));
            assert forall|k: int| 0 <= k < out.len() implies (#[trigger] out@[k]).0 == area_of(
                w[k],
            ) && out@[k].1@ == loop_shape(w[k]) by {
                if k < at {
                    assert(out@[k] == seen[k]);
                    assert(w[k] == done[k]);
                } else if k > at {
                    assert(out@[k] == seen[k - 1]);
                    assert(w[k] == done[k - 1]);
                }
            }
        }
        i += 1;
    }
    Some(out)
}

/// Import the board outline and its cutouts: the lines, arcs and circles on the cut layer,
/// stitched into closed loops. The largest loop is the outline. Refused when nothing is
/// drawn there, when a contour is open, and when a loop is so large that its area cannot be
/// summed in 128 bits, or an arc is given by points outside the kernel range. `rs` says what
/// the angles of the file mean.
pub fn import_board_outline(text: &str, rs: &Readings) -> (r: Result<
    (Shape2D, Vec<Shape2D>),
    String,
>)
    requires
        number::readable(rs@),
    ensures
        match (r, outline_loops(text@, rs@)) {
            (Ok((outline, cutouts)), Ok(loops)) => {
                &&& loops.len() == cutouts.len() + 1
                &&& outline@ == loop_shape(loops[0])
                &&& forall|i: int|
                    0 <= i < cutouts.len() ==> (#[trigger] cutouts@[i])@ == loop_shape(
                        loops[i + 1],
                    )
            },
            (Err(e), Err(m)) => e@ == m,
            _ => false,
        },
{
    let root = match parse(text) {
        Ok(x) => x,
        Err(e) => {
            return Err(e);
        },
    };
    let items = match root.as_list() {
        Some(v) => v,
        None => {
            return Err("top-level expression is not a list".to_owned());
        },
    };
    if !head_is(items, "kicad_pcb") {
        let q = show_option(nth_atom(items, 0));
        return Err(cat("expected '(kicad_pcb …)', got ", q.as_str()));
    }
    let (edges, circles) = match collect(items, rs) {
        Ok(x) => x,
        Err(e) => {
            return Err(e);
        },
    };
    assert(path_views(circles@).len() == circles.len());
    if edges.len() == 0 && circles.len() == 0 {
        return Err("no Edge.Cuts graphics found in board".to_owned());
    }
    let ghost (es, cs) = (edges@, path_views(circles@));
    let loops = match stitch_loops(edges, circles) {
        Ok(v) => v,
        Err(e) => {
            return Err(e);
        },
    };
    let ghost ls = path_views(loops@);
    proof {
        stitching_adds(es, cs);
        largest_loop_comes_first(ls, ls.len());
    }
    let mut sorted = match sort_loops(loops) {
        Some(v) => v,
        None => {
            return Err("Edge.Cuts leaves the range of exact arithmetic".to_owned());
        },
    };
    let ghost w = by_area(ls, ls.len());
    let ghost all = sorted@;
    let (_area, outline) = sorted.remove(0);
    let mut cutouts: Vec<Shape2D> = Vec::new();
    let mut i: usize = 0;
    while i < sorted.len()
        invariant
            i <= sorted.len(),
            sized(all, w),
            all.len() > 0,
            sorted@ == all.remove(0),
            cutouts.len() == i,
            forall|k: int| 0 <= k < i ==> (#[trigger] cutouts@[k])@ == loop_shape(w[k + 1]),
        decreases sorted.len() - i,
    {
        assert(sorted@[i as int] == all[i + 1]);
        cutouts.push(sorted[i].1.clone());
        i += 1;
    }
    Ok((outline, cutouts))
}

} // verus!
