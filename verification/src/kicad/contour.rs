//! How drawn edges become the loops of a board outline.

use super::number;
use super::number::Num;
use super::outline;
use super::outline::EdgeSeg;
use super::primitive;
use super::rounding;
use super::sexp;
use super::sexp::SexpV;
use crate::coord::Point;
use crate::geom::limits;
use crate::geom::path;
use crate::geom::path::{PathV, Seg};
use vstd::prelude::*;

verus! {

// ---------------------------------------------------------------------------
// Edges.
// ---------------------------------------------------------------------------

/// The list draws a line on the cut layer from `a` to `b`.
pub open spec fn cuts_a_line(item: SexpV, a: Point, b: Point) -> bool {
    item matches SexpV::List(l) && {
        &&& sexp::atom_at(l, 0) == Some("gr_line"@)
        &&& sexp::child_atom(l, "layer"@, 1) == Some("Edge.Cuts"@)
        &&& primitive::xy(l, "start"@) == Ok::<Option<Point>, Seq<char>>(Some(a))
        &&& primitive::xy(l, "end"@) == Ok::<Option<Point>, Seq<char>>(Some(b))
    }
}

/// The list draws an arc on the cut layer from `a` over `m` to `b`.
pub open spec fn cuts_an_arc(item: SexpV, a: Point, m: Point, b: Point) -> bool {
    item matches SexpV::List(l) && {
        &&& sexp::atom_at(l, 0) == Some("gr_arc"@)
        &&& sexp::child_atom(l, "layer"@, 1) == Some("Edge.Cuts"@)
        &&& primitive::xy(l, "start"@) == Ok::<Option<Point>, Seq<char>>(Some(a))
        &&& primitive::xy(l, "mid"@) == Ok::<Option<Point>, Seq<char>>(Some(m))
        &&& primitive::xy(l, "end"@) == Ok::<Option<Point>, Seq<char>>(Some(b))
    }
}

/// The list draws a circle on the cut layer about `c` through `e`.
pub open spec fn cuts_a_circle(item: SexpV, c: Point, e: Point) -> bool {
    item matches SexpV::List(l) && {
        &&& sexp::atom_at(l, 0) == Some("gr_circle"@)
        &&& sexp::child_atom(l, "layer"@, 1) == Some("Edge.Cuts"@)
        &&& primitive::xy(l, "center"@) == Ok::<Option<Point>, Seq<char>>(Some(c))
        &&& primitive::xy(l, "end"@) == Ok::<Option<Point>, Seq<char>>(Some(e))
    }
}

/// The list draws on the cut layer.
pub open spec fn is_cut(item: SexpV) -> bool {
    item matches SexpV::List(l) && sexp::child_atom(l, "layer"@, 1) == Some("Edge.Cuts"@)
}

/// The edges and loops after the item at `i`.
spec fn after(
    items: Seq<SexpV>,
    i: int,
    edges: Seq<EdgeSeg>,
    loops: Seq<PathV>,
    rs: Seq<(Seq<char>, Num)>,
) -> (Seq<EdgeSeg>, Seq<PathV>) {
    match items[i] {
        SexpV::Atom(_) => (edges, loops),
        SexpV::List(l) => {
            let head = sexp::atom_at(l, 0);
            if head == Some("gr_line"@) && outline::on_cut_layer(l) {
                (edges.push(outline::line_of(l)->Ok_0), loops)
            } else if head == Some("gr_arc"@) && outline::on_cut_layer(l) {
                (edges.push(outline::arc_of(l, rs)->Ok_0), loops)
            } else if head == Some("gr_circle"@) && outline::on_cut_layer(l) {
                (edges, loops.push(outline::circle_of(l)->Ok_0))
            } else {
                (edges, loops)
            }
        },
    }
}

proof fn drawn_is_kept(
    items: Seq<SexpV>,
    i: int,
    edges: Seq<EdgeSeg>,
    loops: Seq<PathV>,
    rs: Seq<(Seq<char>, Num)>,
)
    requires
        0 <= i <= items.len(),
        outline::drawn_from(items, i, edges, loops, rs) is Ok,
    ensures
        ({
            let (es, ps) = outline::drawn_from(items, i, edges, loops, rs)->Ok_0;
            &&& edges.len() <= es.len()
            &&& es.take(edges.len() as int) == edges
            &&& loops.len() <= ps.len()
            &&& ps.take(loops.len() as int) == loops
        }),
    decreases items.len() - i,
{
    if i < items.len() {
        let (me, ml) = after(items, i, edges, loops, rs);
        drawn_is_kept(items, i + 1, me, ml, rs);
        let (es, ps) = outline::drawn_from(items, i, edges, loops, rs)->Ok_0;
        assert(es.take(edges.len() as int) =~= es.take(me.len() as int).take(edges.len() as int));
        assert(me.take(edges.len() as int) =~= edges);
        assert(ps.take(loops.len() as int) =~= ps.take(ml.len() as int).take(loops.len() as int));
        assert(ml.take(loops.len() as int) =~= loops);
    } else {
        assert(edges.take(edges.len() as int) =~= edges);
        assert(loops.take(loops.len() as int) =~= loops);
    }
}

proof fn drawn_is_found(
    items: Seq<SexpV>,
    i: int,
    at: int,
    edges: Seq<EdgeSeg>,
    loops: Seq<PathV>,
    rs: Seq<(Seq<char>, Num)>,
) -> (was: (Seq<EdgeSeg>, Seq<PathV>))
    requires
        0 <= i <= at < items.len(),
        outline::drawn_from(items, i, edges, loops, rs) is Ok,
    ensures
        outline::drawn_from(items, at, was.0, was.1, rs) == outline::drawn_from(
            items,
            i,
            edges,
            loops,
            rs,
        ),
    decreases items.len() - i,
{
    if i < at {
        let (me, ml) = after(items, i, edges, loops, rs);
        drawn_is_found(items, i + 1, at, me, ml, rs)
    } else {
        (edges, loops)
    }
}

proof fn heads_differ()
    ensures
        "gr_line"@ != "gr_arc"@,
        "gr_line"@ != "gr_circle"@,
        "gr_arc"@ != "gr_circle"@,
{
    reveal_strlit("gr_line");
    reveal_strlit("gr_arc");
    reveal_strlit("gr_circle");
    assert("gr_line"@.len() == 7 && "gr_arc"@.len() == 6 && "gr_circle"@.len() == 9);
}

/// Every line on the cut layer is an edge between its ends.
pub proof fn every_cut_line_is_an_edge(
    items: Seq<SexpV>,
    at: int,
    rs: Seq<(Seq<char>, Num)>,
    a: Point,
    b: Point,
)
    requires
        outline::drawn_from(items, 0, Seq::empty(), Seq::empty(), rs) is Ok,
        0 <= at < items.len(),
        cuts_a_line(items[at], a, b),
    ensures
        ({
            let (edges, circles) = outline::drawn_from(
                items,
                0,
                Seq::empty(),
                Seq::empty(),
                rs,
            )->Ok_0;
            edges.contains(EdgeSeg { a, b, mid: None })
        }),
{
    heads_differ();
    let (es, ps) = drawn_is_found(items, 0, at, Seq::empty(), Seq::empty(), rs);
    let e = EdgeSeg { a, b, mid: None };
    drawn_is_kept(items, at + 1, es.push(e), ps, rs);
    let (edges, circles) = outline::drawn_from(items, 0, Seq::empty(), Seq::empty(), rs)->Ok_0;
    assert(edges.take(es.len() as int + 1)[es.len() as int] == e);
    assert(edges[es.len() as int] == e);
}

/// Every arc on the cut layer is an edge between its ends that bends over its middle.
pub proof fn every_cut_arc_is_an_edge(
    items: Seq<SexpV>,
    at: int,
    rs: Seq<(Seq<char>, Num)>,
    a: Point,
    m: Point,
    b: Point,
)
    requires
        outline::drawn_from(items, 0, Seq::empty(), Seq::empty(), rs) is Ok,
        0 <= at < items.len(),
        cuts_an_arc(items[at], a, m, b),
    ensures
        ({
            let (edges, circles) = outline::drawn_from(
                items,
                0,
                Seq::empty(),
                Seq::empty(),
                rs,
            )->Ok_0;
            edges.contains(EdgeSeg { a, b, mid: Some(m) })
        }),
{
    heads_differ();
    reveal(primitive::two_needed);
    let (es, ps) = drawn_is_found(items, 0, at, Seq::empty(), Seq::empty(), rs);
    let e = EdgeSeg { a, b, mid: Some(m) };
    drawn_is_kept(items, at + 1, es.push(e), ps, rs);
    let (edges, circles) = outline::drawn_from(items, 0, Seq::empty(), Seq::empty(), rs)->Ok_0;
    assert(edges.take(es.len() as int + 1)[es.len() as int] == e);
    assert(edges[es.len() as int] == e);
}

/// What is not on the cut layer adds nothing.
pub proof fn other_layers_are_left_out(
    items: Seq<SexpV>,
    i: int,
    edges: Seq<EdgeSeg>,
    loops: Seq<PathV>,
    rs: Seq<(Seq<char>, Num)>,
)
    requires
        0 <= i <= items.len(),
        forall|k: int| i <= k < items.len() ==> !is_cut(#[trigger] items[k]),
    ensures
        outline::drawn_from(items, i, edges, loops, rs) == Ok::<
            (Seq<EdgeSeg>, Seq<PathV>),
            Seq<char>,
        >((edges, loops)),
    decreases items.len() - i,
{
    if i < items.len() {
        assert(!is_cut(items[i]));
        other_layers_are_left_out(items, i + 1, edges, loops, rs);
    }
}

// ---------------------------------------------------------------------------
// Circles.
// ---------------------------------------------------------------------------

/// The squared distance of two points.
pub open spec fn apart2(p: Point, q: Point) -> int {
    (p.x - q.x) * (p.x - q.x) + (p.y - q.y) * (p.y - q.y)
}

/// The points face each other across `c`.
pub open spec fn opposite(p: Point, q: Point, c: Point) -> bool {
    p.x + q.x == 2 * c.x && p.y + q.y == 2 * c.y
}

/// The path is two half circles about `c` of radius `r`: it starts and ends at one point,
/// turns at the opposite one, and bends over the two points a quarter turn off.
pub open spec fn rounds(p: PathV, c: Point, r: int) -> bool {
    &&& p.segs.len() == 2
    &&& apart2(p.start, c) == r * r
    &&& p.segs[0] matches Seg::Arc { mid: m, end: e } && p.segs[1] matches Seg::Arc {
        mid: n,
        end: f,
    } && {
        &&& f == p.start
        &&& opposite(p.start, e, c)
        &&& opposite(m, n, c)
        &&& apart2(m, c) == r * r
        &&& apart2(m, p.start) == 2 * (r * r)
    }
}

proof fn circle_is_found(
    items: Seq<SexpV>,
    at: int,
    rs: Seq<(Seq<char>, Num)>,
    es: Seq<EdgeSeg>,
    ps: Seq<PathV>,
    p: PathV,
)
    requires
        0 <= at < items.len(),
        outline::drawn_from(items, at, es, ps, rs) is Ok,
        outline::drawn_from(items, at, es, ps, rs) == outline::drawn_from(
            items,
            at + 1,
            es,
            ps.push(p),
            rs,
        ),
    ensures
        ({
            let (edges, circles) = outline::drawn_from(items, at, es, ps, rs)->Ok_0;
            circles.contains(p)
        }),
{
    drawn_is_kept(items, at + 1, es, ps.push(p), rs);
    let (edges, circles) = outline::drawn_from(items, at, es, ps, rs)->Ok_0;
    assert(circles.take(ps.len() as int + 1)[ps.len() as int] == p);
    assert(circles[ps.len() as int] == p);
}

proof fn circle_rounds(c: Point, e: Point)
    requires
        limits::pt_in_ingest(c),
        limits::pt_in_ingest(e),
        number::distance(c, e) > 0,
    ensures
        ({
            let p = outline::circle_path(c, e);
            let r = p.start.x - c.x;
            &&& rounds(p, c, r)
            &&& (r - 1) * (r - 1) <= apart2(c, e) <= (r + 1) * (r + 1)
        }),
{
    let r = number::distance(c, e);
    rounding::distance_is_the_distance(c, e);
    let (dx, dy) = (c.x - e.x, c.y - e.y);
    assert(r <= 4_000_000_000) by (nonlinear_arith)
        requires
            (r - 1) * (r - 1) <= dx * dx + dy * dy,
            -2_000_000_000 <= dx <= 2_000_000_000,
            -2_000_000_000 <= dy <= 2_000_000_000,
    ;
    assert(0 * 0 == 0);
    assert((-r) * (-r) == r * r) by (nonlinear_arith);
}

/// Every circle on the cut layer is a loop around its centre that passes through its point,
/// to a nanometre.
pub proof fn every_cut_circle_is_a_loop(
    items: Seq<SexpV>,
    at: int,
    rs: Seq<(Seq<char>, Num)>,
    c: Point,
    e: Point,
) -> (p: PathV)
    requires
        outline::drawn_from(items, 0, Seq::empty(), Seq::empty(), rs) is Ok,
        0 <= at < items.len(),
        cuts_a_circle(items[at], c, e),
        limits::pt_in_ingest(c),
        limits::pt_in_ingest(e),
    ensures
        ({
            let (edges, circles) = outline::drawn_from(
                items,
                0,
                Seq::empty(),
                Seq::empty(),
                rs,
            )->Ok_0;
            let r = p.start.x - c.x;
            &&& circles.contains(p)
            &&& rounds(p, c, r)
            &&& (r - 1) * (r - 1) <= apart2(c, e) <= (r + 1) * (r + 1)
        }),
{
    heads_differ();
    let (es, ps) = drawn_is_found(items, 0, at, Seq::empty(), Seq::empty(), rs);
    let p = outline::circle_path(c, e);
    assert(number::distance(c, e) > 0);
    circle_rounds(c, e);
    circle_is_found(items, at, rs, es, ps, p);
    p
}

// ---------------------------------------------------------------------------
// Walks.
// ---------------------------------------------------------------------------

/// The points are no further apart than a micrometre.
pub open spec fn joined(p: Point, q: Point) -> bool {
    apart2(p, q) <= 1_000 * 1_000
}

proof fn joining_is_symmetric(p: Point, q: Point)
    ensures
        outline::touching(p, q) == joined(p, q),
        joined(p, q) == joined(q, p),
{
    let (x, y) = (p.x - q.x, p.y - q.y);
    assert((-x) * (-x) == x * x && (-y) * (-y) == y * y) by (nonlinear_arith);
}

/// The step leads along the edge, from the end at `from` to the other end.
pub open spec fn follows(e: EdgeSeg, from: Point, step: Seg) -> bool {
    let to = path::seg_end(step);
    &&& (joined(from, e.a) && to == e.b) || (joined(from, e.b) && to == e.a)
    &&& match e.mid {
        Some(m) => step == Seg::Arc { mid: m, end: to },
        None => step == Seg::Line { end: to },
    }
}

/// Walking an edge from one of its ends leads to the other.
pub proof fn walking_leads_to_the_other_end(e: EdgeSeg, from: Point)
    requires
        joined(from, e.a) || joined(from, e.b),
    ensures
        follows(e, from, outline::walked(e, from)),
        path::seg_end(outline::walked(e, from)) == outline::far_end(e, from),
{
    joining_is_symmetric(from, e.a);
    joining_is_symmetric(from, e.b);
}

proof fn edge_found_ends_there(edges: Seq<EdgeSeg>, p: Point)
    ensures
        0 <= outline::edge_at(edges, p) <= edges.len(),
        outline::edge_at(edges, p) < edges.len() ==> outline::ends_at(
            edges[outline::edge_at(edges, p)],
            p,
        ),
    decreases edges.len(),
{
    if edges.len() > 0 && !outline::ends_at(edges[0], p) {
        edge_found_ends_there(edges.skip(1), p);
    }
}

/// Some edge leads from `from` along the step.
pub open spec fn is_step(edges: Seq<EdgeSeg>, from: Point, step: Seg) -> bool {
    exists|i: int| 0 <= i < edges.len() && #[trigger] follows(edges[i], from, step)
}

/// A chain is unbroken: each step after the first follows one of the edges from where the
/// step before it ended, and the last ends where the chain started.
pub proof fn a_chain_is_unbroken(
    edges: Seq<EdgeSeg>,
    segs: Seq<Seg>,
    start: Point,
    cur: Point,
    k: int,
)
    requires
        outline::chain(edges, segs, start, cur) is Ok,
        segs.len() > 0,
        path::seg_end(segs.last()) == cur,
        ({
            let (walk, rest) = outline::chain(edges, segs, start, cur)->Ok_0;
            segs.len() <= k < walk.len()
        }),
    ensures
        ({
            let (walk, rest) = outline::chain(edges, segs, start, cur)->Ok_0;
            &&& is_step(edges, path::seg_end(walk[k - 1]), walk[k])
            &&& joined(path::seg_end(walk.last()), start)
        }),
    decreases edges.len(),
{
    let i = outline::edge_at(edges, cur);
    let (walk, rest) = outline::chain(edges, segs, start, cur)->Ok_0;
    outline::chain_closes(edges, segs, start, cur);
    joining_is_symmetric(path::seg_end(walk.last()), start);
    if !outline::touching(cur, start) {
        edge_found_ends_there(edges, cur);
        let e = edges[i];
        let step = outline::walked(e, cur);
        let more = segs.push(step);
        joining_is_symmetric(e.a, cur);
        joining_is_symmetric(e.b, cur);
        walking_leads_to_the_other_end(e, cur);
        let left = edges.remove(i);
        let next = outline::far_end(e, cur);
        outline::chain_closes(left, more, start, next);
        if k == segs.len() {
            assert(walk.take(more.len() as int) == more);
            assert(walk[k] == walk.take(more.len() as int)[k]);
            assert(walk[k - 1] == walk.take(more.len() as int)[k - 1]);
            assert(follows(edges[i], path::seg_end(walk[k - 1]), walk[k]));
        } else {
            a_chain_is_unbroken(left, more, start, next, k);
            let from = path::seg_end(walk[k - 1]);
            let j = choose|j: int| 0 <= j < left.len() && #[trigger] follows(left[j], from, walk[k]);
            if j < i {
                assert(left[j] == edges[j]);
                assert(follows(edges[j], from, walk[k]));
            } else {
                assert(left[j] == edges[j + 1]);
                assert(follows(edges[j + 1], from, walk[k]));
            }
        }
    }
}

/// The step ends at an end of the edge.
pub open spec fn visits(step: Seg, e: EdgeSeg) -> bool {
    path::seg_end(step) == e.a || path::seg_end(step) == e.b
}

/// Some step of the walk ends at an end of the edge.
pub open spec fn is_visited(walk: Seq<Seg>, e: EdgeSeg) -> bool {
    exists|j: int| 0 <= j < walk.len() && visits(#[trigger] walk[j], e)
}

/// The loop passes an end of the edge: it starts there, or one of its steps ends there.
pub open spec fn passes(p: PathV, e: EdgeSeg) -> bool {
    joined(p.start, e.a) || joined(p.start, e.b) || is_visited(p.segs, e)
}

proof fn chain_takes_or_leaves(
    edges: Seq<EdgeSeg>,
    segs: Seq<Seg>,
    start: Point,
    cur: Point,
    k: int,
)
    requires
        outline::chain(edges, segs, start, cur) is Ok,
        segs.len() > 0,
        path::seg_end(segs.last()) == cur,
        0 <= k < edges.len(),
    ensures
        ({
            let (walk, rest) = outline::chain(edges, segs, start, cur)->Ok_0;
            rest.contains(edges[k]) || is_visited(walk, edges[k])
        }),
    decreases edges.len(),
{
    let i = outline::edge_at(edges, cur);
    let (walk, rest) = outline::chain(edges, segs, start, cur)->Ok_0;
    if outline::touching(cur, start) {
        assert(edges.contains(edges[k]));
    } else {
        edge_found_ends_there(edges, cur);
        let e = edges[i];
        let more = segs.push(outline::walked(e, cur));
        let left = edges.remove(i);
        let next = outline::far_end(e, cur);
        outline::chain_closes(left, more, start, next);
        if k == i {
            assert(walk.take(more.len() as int)[segs.len() as int] == more.last());
            assert(visits(walk[segs.len() as int], e));
        } else {
            let j = if k < i {
                k
            } else {
                k - 1
            };
            assert(left[j] == edges[k]);
            chain_takes_or_leaves(left, more, start, next, j);
        }
    }
}

proof fn stitched_keeps(edges: Seq<EdgeSeg>, done: Seq<PathV>, p: PathV)
    requires
        outline::stitched(edges, done) is Ok,
        done.contains(p),
    ensures
        outline::stitched(edges, done)->Ok_0.contains(p),
    decreases edges.len(),
{
    if edges.len() > 0 {
        let first = edges.last();
        let (segs, rest) = outline::chain(
            edges.drop_last(),
            seq![outline::walked(first, first.a)],
            first.a,
            outline::far_end(first, first.a),
        )->Ok_0;
        if rest.len() < edges.len() {
            let more = done.push(outline::closed_path(first.a, segs));
            let k = choose|k: int| 0 <= k < done.len() && done[k] == p;
            assert(more[k] == p);
            stitched_keeps(rest, more, p);
        }
    }
}

proof fn closed_path_passes(start: Point, segs: Seq<Seg>, e: EdgeSeg)
    requires
        segs.len() > 0,
        joined(path::seg_end(segs.last()), start),
        is_visited(segs, e),
    ensures
        passes(outline::closed_path(start, segs), e),
{
    let j = choose|j: int| 0 <= j < segs.len() && visits(#[trigger] segs[j], e);
    let p = outline::closed_path(start, segs);
    if j < p.segs.len() {
        assert(visits(p.segs[j], e));
    } else {
        joining_is_symmetric(path::seg_end(segs.last()), start);
    }
}

/// No edge is lost: every edge lies on one of the loops.
pub proof fn every_edge_is_on_a_loop(edges: Seq<EdgeSeg>, done: Seq<PathV>, k: int) -> (p: PathV)
    requires
        outline::stitched(edges, done) is Ok,
        0 <= k < edges.len(),
    ensures
        outline::stitched(edges, done)->Ok_0.contains(p),
        passes(p, edges[k]),
    decreases edges.len(),
{
    let first = edges.last();
    let start = first.a;
    let begun = seq![outline::walked(first, start)];
    let cur = outline::far_end(first, start);
    let left = edges.drop_last();
    joining_is_symmetric(start, start);
    assert(0 * 0 == 0);
    assert(joined(start, first.a));
    walking_leads_to_the_other_end(first, start);
    assert(begun.last() == begun[0]);
    outline::chain_closes(left, begun, start, cur);
    let (segs, rest) = outline::chain(left, begun, start, cur)->Ok_0;
    let p = outline::closed_path(start, segs);
    let more = done.push(p);
    assert(more[done.len() as int] == p);
    stitched_keeps(rest, more, p);
    joining_is_symmetric(path::seg_end(segs.last()), start);
    if k == edges.len() - 1 {
        p
    } else {
        assert(left[k] == edges[k]);
        chain_takes_or_leaves(left, begun, start, cur, k);
        if is_visited(segs, edges[k]) {
            closed_path_passes(start, segs, edges[k]);
            p
        } else {
            let j = choose|j: int| 0 <= j < rest.len() && rest[j] == edges[k];
            every_edge_is_on_a_loop(rest, more, j)
        }
    }
}

} // verus!
