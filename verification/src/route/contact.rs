//! What it takes for copper to be joined: points that touch, on a layer that both reach.

use super::connectivity;
use super::connectivity::{NetCopper, Node};
use super::incidence;
use super::layer;
use super::layer::ViaV;
use super::union_find;
use crate::coord::Point;
use crate::geom::gap;
use crate::geom::gap::follow;
use crate::geom::nearness::fraction;
use crate::geom::polygon;
use crate::geom::separation;
use crate::geom::separation::{points_reach, points_within};
use crate::geom::stackup;
use crate::geom::stackup::SlabV;
use crate::precision;
use vstd::prelude::*;

verus! {

// ---------------------------------------------------------------------------
// Incidence is distance.
// ---------------------------------------------------------------------------

/// Some point of one line of points and some point of the other are no farther apart than
/// `tol`.
pub open spec fn lines_touch(p: Seq<Point>, q: Seq<Point>, tol: int) -> bool {
    exists|a: Point, b: Point, c: Point, d: Point|
        #![trigger points_reach(a, b, c, d, tol * tol)]
        follow(p, a, b) && follow(q, c, d) && points_reach(a, b, c, d, tol * tol)
}

/// Some point of the line is no farther from `p` than `tol`.
pub open spec fn line_touches(p: Point, q: Seq<Point>, tol: int) -> bool {
    exists|c: Point, d: Point|
        #![trigger points_reach(p, p, c, d, tol * tol)]
        follow(q, c, d) && points_reach(p, p, c, d, tol * tol)
}

/// The points are no farther apart than `tol`.
pub open spec fn dots_touch(p: Point, q: Point, tol: int) -> bool {
    (p.x - q.x) * (p.x - q.x) + (p.y - q.y) * (p.y - q.y) <= tol * tol
}

/// Segments cross or touch exactly where they share a point.
pub proof fn crossing_is_sharing_a_point(a: Point, b: Point, c: Point, d: Point)
    ensures
        incidence::crossing(a, b, c, d) <==> separation::share_a_point(a, b, c, d),
{
    separation::meeting_is_sharing_a_point(a, b, c, d);
    if separation::share_a_point(a, b, c, d) {
        let (s, t) = choose|s: real, t: real|
            fraction(s) && fraction(t) && #[trigger] separation::gap2(a, b, c, d, s, t)
                == 0 as real;
        separation::shared_point_crosses(a, b, c, d, s, t);
    }
}

/// Segments are near exactly when some point of one and some point of the other are: nearer
/// than `t`, or no farther apart when touching counts.
pub proof fn nearness_is_distance(a: Point, b: Point, c: Point, d: Point, t: int)
    ensures
        t > 0 ==> (incidence::segs_near(a, b, c, d, t, true) <==> points_within(
            a,
            b,
            c,
            d,
            t * t,
        )),
        incidence::segs_near(a, b, c, d, t, false) <==> points_reach(a, b, c, d, t * t),
{
    crossing_is_sharing_a_point(a, b, c, d);
    separation::meeting_is_sharing_a_point(a, b, c, d);
    assert(t * t >= 0) by (nonlinear_arith);
    separation::reaching_or_meeting_is_exact(a, b, c, d, t * t);
    if t > 0 {
        assert(t * t > 0) by (nonlinear_arith)
            requires
                t > 0,
        ;
        separation::near_or_meeting_is_exact(a, b, c, d, t * t);
    }
}

proof fn edges_are_pieces(line: Seq<Point>, a: Point, b: Point)
    ensures
        incidence::edges_of(line).contains((a, b)) <==> follow(line, a, b),
{
    if line.len() > 0 {
        gap::open_pieces(line, a, b);
    }
}

/// Lines of points touch exactly when some point of one and some point of the other are no
/// farther apart than the tolerance.
pub proof fn touching_is_distance(p: Seq<Point>, q: Seq<Point>, tol: int)
    ensures
        incidence::polylines_touch(p, q, tol) <==> lines_touch(p, q, tol),
{
    let (es, fs) = (incidence::edges_of(p), incidence::edges_of(q));
    if incidence::polylines_touch(p, q, tol) {
        let (i, j) = choose|i: int, j: int|
            0 <= i < es.len() && 0 <= j < fs.len() && #[trigger] incidence::edge_touches(
                es[i],
                fs[j],
                tol,
            );
        let (e, f) = (es[i], fs[j]);
        assert(es.contains((e.0, e.1)) && fs.contains((f.0, f.1)));
        edges_are_pieces(p, e.0, e.1);
        edges_are_pieces(q, f.0, f.1);
        nearness_is_distance(e.0, e.1, f.0, f.1, tol);
        assert(points_reach(e.0, e.1, f.0, f.1, tol * tol));
    }
    if lines_touch(p, q, tol) {
        let (a, b, c, d) = choose|a: Point, b: Point, c: Point, d: Point|
            #![trigger points_reach(a, b, c, d, tol * tol)]
            follow(p, a, b) && follow(q, c, d) && points_reach(a, b, c, d, tol * tol);
        edges_are_pieces(p, a, b);
        edges_are_pieces(q, c, d);
        nearness_is_distance(a, b, c, d, tol);
        let i = choose|i: int| 0 <= i < es.len() && es[i] == (a, b);
        let j = choose|j: int| 0 <= j < fs.len() && fs[j] == (c, d);
        assert(incidence::edge_touches(es[i], fs[j], tol));
    }
}

/// A point touches a line of points exactly when some point of the line is no farther from it
/// than the tolerance.
pub proof fn point_on_line_is_distance(p: Point, q: Seq<Point>, tol: int)
    ensures
        incidence::on_polyline(p, q, tol) <==> line_touches(p, q, tol),
{
    let fs = incidence::edges_of(q);
    if incidence::on_polyline(p, q, tol) {
        let j = choose|j: int|
            0 <= j < fs.len() && #[trigger] incidence::edge_touches((p, p), fs[j], tol);
        let f = fs[j];
        assert(fs.contains((f.0, f.1)));
        edges_are_pieces(q, f.0, f.1);
        nearness_is_distance(p, p, f.0, f.1, tol);
        assert(points_reach(p, p, f.0, f.1, tol * tol));
    }
    if line_touches(p, q, tol) {
        let (c, d) = choose|c: Point, d: Point|
            #![trigger points_reach(p, p, c, d, tol * tol)]
            follow(q, c, d) && points_reach(p, p, c, d, tol * tol);
        edges_are_pieces(q, c, d);
        nearness_is_distance(p, p, c, d, tol);
        let j = choose|j: int| 0 <= j < fs.len() && fs[j] == (c, d);
        assert(incidence::edge_touches((p, p), fs[j], tol));
    }
}

/// Two points touch exactly when they are no farther apart than the tolerance.
pub proof fn dots_touch_by_distance(p: Point, q: Point, tol: int)
    ensures
        connectivity::points_touch(p, q, tol) <==> dots_touch(p, q, tol),
{
    nearness_is_distance(p, p, q, q, tol);
    let (dx, dy) = (p.x - q.x, p.y - q.y);
    precision::int_product(dx, dx);
    precision::int_product(dy, dy);
    let g = dx * dx + dy * dy;
    assert forall|s: real, t: real| #[trigger] separation::gap2(p, p, q, q, s, t) == g as real by {
        assert(s * (0 as real) == 0 as real && t * (0 as real) == 0 as real) by (nonlinear_arith);
    }
    assert(separation::gap2(p, p, q, q, 0 as real, 0 as real) == g as real);
}

// ---------------------------------------------------------------------------
// The reach of a via.
// ---------------------------------------------------------------------------

/// No two slabs have the same name.
pub open spec fn names_differ(cu: Seq<SlabV>) -> bool {
    forall|i: int, j: int|
        0 <= i < j < cu.len() ==> (#[trigger] cu[i]).name != (#[trigger] cu[j]).name
}

/// No two slabs have the same height.
pub open spec fn heights_differ(cu: Seq<SlabV>) -> bool {
    forall|i: int, j: int| 0 <= i < j < cu.len() ==> (#[trigger] cu[i]).z != (#[trigger] cu[j]).z
}

/// The via goes through copper slab `k`: it goes through all, or the slab lies between the
/// two that the via names, themselves included.
pub open spec fn goes_through(v: ViaV, cu: Seq<SlabV>, k: int) -> bool {
    match v.span {
        None => true,
        Some((from, to)) => exists|a: int, b: int|
            0 <= a < cu.len() && 0 <= b < cu.len() && (#[trigger] cu[a]).name == from && (
            #[trigger] cu[b]).name == to && (a <= k <= b || b <= k <= a),
    }
}

proof fn range_is_between(v: ViaV, cu: Seq<SlabV>, k: int)
    requires
        names_differ(cu),
        0 <= k < cu.len(),
    ensures
        goes_through(v, cu, k) <==> (layer::via_range(v, cu) matches Some((lo, hi)) && lo <= k <= hi),
{
    if let Some((from, to)) = v.span {
        let (a, b) = (stackup::slab_index(cu, from), stackup::slab_index(cu, to));
        stackup::slab_index_is_first(cu, from);
        stackup::slab_index_is_first(cu, to);
        if goes_through(v, cu, k) {
            let (i, j) = choose|i: int, j: int|
                0 <= i < cu.len() && 0 <= j < cu.len() && (#[trigger] cu[i]).name == from && (
                #[trigger] cu[j]).name == to && (i <= k <= j || j <= k <= i);
            assert(a <= i && b <= j);
            if a < i {
                assert(cu[a].name != cu[i].name);
            }
            if b < j {
                assert(cu[b].name != cu[j].name);
            }
        }
        if a < cu.len() && b < cu.len() && (a <= k <= b || b <= k <= a) {
            assert(cu[a].name == from && cu[b].name == to);
        }
    }
}

/// A via reaches a named slab exactly when it goes through it.
pub proof fn via_reaches_what_it_goes_through(v: ViaV, cu: Seq<SlabV>, k: int)
    requires
        names_differ(cu),
        0 <= k < cu.len(),
    ensures
        connectivity::spans_name(v, cu, cu[k].name) <==> goes_through(v, cu, k),
{
    range_is_between(v, cu, k);
    stackup::slab_index_is_first(cu, cu[k].name);
    let i = stackup::slab_index(cu, cu[k].name);
    if i < k {
        assert(cu[i].name != cu[k].name);
    }
}

/// A via has copper on a slab exactly when it goes through it.
pub proof fn via_lands_on_what_it_goes_through(v: ViaV, cu: Seq<SlabV>, k: int)
    requires
        names_differ(cu),
        heights_differ(cu),
        0 <= k < cu.len(),
    ensures
        layer::spanned_of(v, cu).contains(cu[k]) <==> goes_through(v, cu, k),
{
    range_is_between(v, cu, k);
    height_is_index(cu, k);
    spanned_members(v, cu, cu.len(), k);
}

/// A slab is found by its height.
pub proof fn height_is_index(cu: Seq<SlabV>, k: int)
    requires
        heights_differ(cu),
        0 <= k < cu.len(),
    ensures
        layer::z_index(cu, cu[k].z) == k,
{
    layer::z_index_is_first(cu, cu[k].z);
    let i = layer::z_index(cu, cu[k].z);
    if i < k {
        assert(cu[i].z != cu[k].z);
    }
}

proof fn spanned_members(v: ViaV, cu: Seq<SlabV>, n: nat, k: int)
    requires
        heights_differ(cu),
        0 <= k < cu.len(),
        n <= cu.len(),
    ensures
        layer::spanned_prefix(v, cu, n).contains(cu[k]) <==> k < n && layer::via_spans_z(
            v,
            cu,
            cu[k].z,
        ),
    decreases n,
{
    let all = layer::spanned_prefix(v, cu, n);
    if n > 0 {
        let done = layer::spanned_prefix(v, cu, (n - 1) as nat);
        spanned_members(v, cu, (n - 1) as nat, k);
        let x = cu[n - 1];
        if k < n - 1 {
            assert(cu[k].z != cu[n - 1].z);
        } else if k > n - 1 {
            assert(cu[n - 1].z != cu[k].z);
        }
        if layer::via_spans_z(v, cu, x.z) {
            assert(all == done.push(x));
            if done.contains(cu[k]) {
                let i = choose|i: int| 0 <= i < done.len() && done[i] == cu[k];
                assert(all[i] == cu[k]);
            }
            if k == n - 1 {
                assert(all[done.len() as int] == cu[k]);
            }
            if all.contains(cu[k]) {
                let i = choose|i: int| 0 <= i < all.len() && all[i] == cu[k];
                if i < done.len() {
                    assert(done[i] == cu[k]);
                }
            }
        }
    }
}

// ---------------------------------------------------------------------------
// Links.
// ---------------------------------------------------------------------------

/// The node of trace `i`.
pub open spec fn trace_node(n: NetCopper, i: int) -> int {
    n.pins.len() + i
}

/// The node of via `i`.
pub open spec fn via_node(n: NetCopper, i: int) -> int {
    n.pins.len() + n.traces.len() + i
}

/// The node of island `i`.
pub open spec fn island_node(n: NetCopper, i: int) -> int {
    n.pins.len() + n.traces.len() + n.vias.len() + i
}

/// Two nodes are linked.
pub open spec fn are_linked(n: NetCopper, cu: Seq<SlabV>, tol: int, x: int, y: int) -> bool {
    union_find::linked(connectivity::links(n, cu, tol), x, y)
}

/// Pins are linked exactly where they touch.
pub proof fn pins_link_where_they_touch(
    n: NetCopper,
    cu: Seq<SlabV>,
    tol: int,
    i: int,
    j: int,
)
    requires
        0 <= i < n.pins.len(),
        0 <= j < n.pins.len(),
        i != j,
    ensures
        are_linked(n, cu, tol, i, j) <==> dots_touch(n.pins[i].at, n.pins[j].at, tol),
{
    dots_touch_by_distance(n.pins[i].at, n.pins[j].at, tol);
    dots_touch_by_distance(n.pins[j].at, n.pins[i].at, tol);
    let (p, q) = (n.pins[i].at, n.pins[j].at);
    let (dx, dy) = (p.x - q.x, p.y - q.y);
    assert((-dx) * (-dx) == dx * dx && (-dy) * (-dy) == dy * dy) by (nonlinear_arith);
}

/// A pin and a trace are linked exactly where they touch, whichever layer the trace is on.
pub proof fn pin_and_trace_link_where_they_touch(
    n: NetCopper,
    cu: Seq<SlabV>,
    tol: int,
    i: int,
    j: int,
)
    requires
        0 <= i < n.pins.len(),
        0 <= j < n.traces.len(),
    ensures
        are_linked(n, cu, tol, i, trace_node(n, j)) <==> line_touches(
            n.pins[i].at,
            n.traces[j].path,
            tol,
        ),
{
    point_on_line_is_distance(n.pins[i].at, n.traces[j].path, tol);
}

/// A pin and a via are linked exactly where they touch.
pub proof fn pin_and_via_link_where_they_touch(
    n: NetCopper,
    cu: Seq<SlabV>,
    tol: int,
    i: int,
    j: int,
)
    requires
        0 <= i < n.pins.len(),
        0 <= j < n.vias.len(),
    ensures
        are_linked(n, cu, tol, i, via_node(n, j)) <==> dots_touch(
            n.pins[i].at,
            n.vias[j].at,
            tol,
        ),
{
    dots_touch_by_distance(n.pins[i].at, n.vias[j].at, tol);
}

/// Two traces are linked exactly where they touch on one layer. On different layers they are
/// not, however their paths cross.
pub proof fn traces_link_on_one_layer(
    n: NetCopper,
    cu: Seq<SlabV>,
    tol: int,
    i: int,
    j: int,
)
    requires
        0 <= i < n.traces.len(),
        0 <= j < n.traces.len(),
        i != j,
    ensures
        are_linked(n, cu, tol, trace_node(n, i), trace_node(n, j)) <==> n.traces[i].layer
            == n.traces[j].layer && lines_touch(n.traces[i].path, n.traces[j].path, tol),
{
    touching_is_distance(n.traces[i].path, n.traces[j].path, tol);
    incidence::polylines_touch_symmetric(n.traces[i].path, n.traces[j].path, tol);
}

/// A trace on a copper slab and a via are linked exactly where they touch and the via goes
/// through the slab.
pub proof fn trace_and_via_link_on_a_slab(
    n: NetCopper,
    cu: Seq<SlabV>,
    tol: int,
    i: int,
    j: int,
    k: int,
)
    requires
        0 <= i < n.traces.len(),
        0 <= j < n.vias.len(),
        names_differ(cu),
        0 <= k < cu.len(),
        cu[k].name == n.traces[i].layer,
    ensures
        are_linked(n, cu, tol, trace_node(n, i), via_node(n, j)) <==> goes_through(
            n.vias[j],
            cu,
            k,
        ) && line_touches(n.vias[j].at, n.traces[i].path, tol),
{
    via_reaches_what_it_goes_through(n.vias[j], cu, k);
    point_on_line_is_distance(n.vias[j].at, n.traces[i].path, tol);
}

/// Two vias are linked exactly where they touch and go through some slab together.
pub proof fn vias_link_on_a_slab(n: NetCopper, cu: Seq<SlabV>, tol: int, i: int, j: int)
    requires
        0 <= i < n.vias.len(),
        0 <= j < n.vias.len(),
        i != j,
        names_differ(cu),
    ensures
        are_linked(n, cu, tol, via_node(n, i), via_node(n, j)) <==> dots_touch(
            n.vias[i].at,
            n.vias[j].at,
            tol,
        ) && exists|k: int|
            0 <= k < cu.len() && #[trigger] goes_through(n.vias[i], cu, k) && goes_through(
                n.vias[j],
                cu,
                k,
            ),
{
    let (v, w) = (n.vias[i], n.vias[j]);
    dots_touch_by_distance(v.at, w.at, tol);
    dots_touch_by_distance(w.at, v.at, tol);
    let (dx, dy) = (v.at.x - w.at.x, v.at.y - w.at.y);
    assert((-dx) * (-dx) == dx * dx && (-dy) * (-dy) == dy * dy) by (nonlinear_arith);
    range_fits(v, cu);
    range_fits(w, cu);
    if connectivity::spans_meet(v, w, cu) {
        let (a, b) = layer::via_range(v, cu)->0;
        let (c, d) = layer::via_range(w, cu)->0;
        let k = if a <= c {
            c
        } else {
            a
        };
        range_is_between(v, cu, k);
        range_is_between(w, cu, k);
        assert(goes_through(v, cu, k) && goes_through(w, cu, k));
    }
    if exists|k: int|
        0 <= k < cu.len() && #[trigger] goes_through(v, cu, k) && goes_through(w, cu, k) {
        let k = choose|k: int|
            0 <= k < cu.len() && #[trigger] goes_through(v, cu, k) && goes_through(w, cu, k);
        range_is_between(v, cu, k);
        range_is_between(w, cu, k);
    }
    assert(connectivity::spans_meet(v, w, cu) == connectivity::spans_meet(w, v, cu));
}

proof fn range_fits(v: ViaV, cu: Seq<SlabV>)
    ensures
        layer::via_range(v, cu) matches Some((lo, hi)) ==> 0 <= lo <= hi < cu.len(),
{
    if let Some((from, to)) = v.span {
        stackup::slab_index_is_first(cu, from);
        stackup::slab_index_is_first(cu, to);
    }
}

/// A pour island joins what lies on it on its own slab: a pin with copper there, a trace of
/// that layer one of whose points is on it, and a via through that slab. Islands are not
/// linked with each other.
pub proof fn islands_link_on_their_slab(
    n: NetCopper,
    cu: Seq<SlabV>,
    tol: int,
    j: int,
    k: int,
)
    requires
        0 <= j < n.islands.len(),
        names_differ(cu),
        0 <= k < cu.len(),
        cu[k].name == n.islands[j].0,
    ensures
        forall|i: int|
            0 <= i < n.pins.len() ==> (#[trigger] are_linked(n, cu, tol, i, island_node(n, j))
                <==> (n.pins[i].all_layers || n.pins[i].slabs.contains(cu[k].name))
                && polygon::in_region(n.pins[i].at, n.islands[j].1)),
        forall|i: int|
            0 <= i < n.traces.len() ==> (#[trigger] are_linked(
                n,
                cu,
                tol,
                trace_node(n, i),
                island_node(n, j),
            ) <==> n.traces[i].layer == cu[k].name && exists|m: int|
                0 <= m < n.traces[i].path.len() && #[trigger] polygon::in_region(
                    n.traces[i].path[m],
                    n.islands[j].1,
                )),
        forall|i: int|
            0 <= i < n.vias.len() ==> (#[trigger] are_linked(
                n,
                cu,
                tol,
                via_node(n, i),
                island_node(n, j),
            ) <==> goes_through(n.vias[i], cu, k) && polygon::in_region(
                n.vias[i].at,
                n.islands[j].1,
            )),
        forall|i: int|
            0 <= i < n.islands.len() ==> !#[trigger] are_linked(
                n,
                cu,
                tol,
                island_node(n, i),
                island_node(n, j),
            ),
{
    assert forall|i: int| 0 <= i < n.vias.len() implies (#[trigger] are_linked(
        n,
        cu,
        tol,
        via_node(n, i),
        island_node(n, j),
    ) <==> goes_through(n.vias[i], cu, k) && polygon::in_region(
        n.vias[i].at,
        n.islands[j].1,
    )) by {
        via_reaches_what_it_goes_through(n.vias[i], cu, k);
    }
}

// ---------------------------------------------------------------------------
// Changing layers.
// ---------------------------------------------------------------------------

/// The layer that a node lies on, if it is one only: that of a trace or of an island.
pub open spec fn only_layer(n: NetCopper, x: int) -> Option<Seq<char>> {
    match connectivity::node(n, x) {
        Node::Trace(i) => Some(n.traces[i].layer),
        Node::Island(i) => Some(n.islands[i].0),
        _ => None,
    }
}

/// A walk that changes layers passes a node that is on no layer only; the first such node is
/// linked with a node on the layer that the walk starts on.
proof fn walk_leaves_a_layer(
    n: NetCopper,
    cu: Seq<SlabV>,
    tol: int,
    walk: Seq<int>,
    name: Seq<char>,
    m: int,
) -> (k: int)
    requires
        union_find::is_walk(connectivity::links(n, cu, tol), walk),
        0 <= m < walk.len(),
        only_layer(n, walk[0]) == Some(name),
        only_layer(n, walk[m]) != Some(name),
    ensures
        0 <= k < m,
        only_layer(n, walk[k]) == Some(name),
        only_layer(n, walk[k + 1]) is None,
        are_linked(n, cu, tol, walk[k], walk[k + 1]),
        union_find::joined(connectivity::links(n, cu, tol), walk[0], walk[k + 1]),
    decreases m,
{
    let links = connectivity::links(n, cu, tol);
    if only_layer(n, walk[m - 1]) == Some(name) {
        assert(union_find::step(links, walk, m - 1));
        let w = walk.take(m + 1);
        assert forall|i: int| 0 <= i && i + 1 < w.len() implies #[trigger] union_find::step(
            links,
            w,
            i,
        ) by {
            assert(union_find::step(links, walk, i));
        }
        assert(union_find::walks(links, w, walk[0], walk[m]));
        m - 1
    } else {
        walk_leaves_a_layer(n, cu, tol, walk, name, m - 1)
    }
}

/// A pin or a via that is linked with copper on a layer.
pub open spec fn bridges(
    n: NetCopper,
    cu: Seq<SlabV>,
    tol: int,
    z: int,
    name: Seq<char>,
) -> bool {
    exists|y: int|
        #![trigger only_layer(n, y)]
        are_linked(n, cu, tol, z, y) && only_layer(n, y) == Some(name)
}

/// Copper changes layers only through pins and vias: where traces or islands on two layers
/// are joined, each layer is reached by a pin or a via of the group.
pub proof fn layers_join_through_pins_and_vias(
    n: NetCopper,
    cu: Seq<SlabV>,
    tol: int,
    x: int,
    y: int,
)
    requires
        only_layer(n, x) is Some,
        only_layer(n, y) is Some,
        only_layer(n, x) != only_layer(n, y),
        union_find::joined(connectivity::links(n, cu, tol), x, y),
    ensures
        exists|z: int|
            0 <= z < connectivity::node_count(n) && only_layer(n, z) is None && bridges(
                n,
                cu,
                tol,
                z,
                only_layer(n, x)->0,
            ) && #[trigger] union_find::joined(connectivity::links(n, cu, tol), x, z),
{
    let links = connectivity::links(n, cu, tol);
    let w = choose|w: Seq<int>| #[trigger] union_find::walks(links, w, x, y);
    let name = only_layer(n, x)->0;
    let k = walk_leaves_a_layer(n, cu, tol, w, name, w.len() - 1);
    let (z, q) = (w[k + 1], w[k]);
    assert(are_linked(n, cu, tol, z, q) && only_layer(n, q) == Some(name));
    assert(union_find::joined(links, x, z));
}

/// Without vias and islands traces on different layers are in one group only if some pin of
/// that group touches copper on each layer.
pub proof fn traces_change_layers_at_pins(
    n: NetCopper,
    cu: Seq<SlabV>,
    tol: int,
    i: int,
    j: int,
)
    requires
        n.vias.len() == 0,
        n.islands.len() == 0,
        0 <= i < n.traces.len(),
        0 <= j < n.traces.len(),
        n.traces[i].layer != n.traces[j].layer,
        union_find::joined(
            connectivity::links(n, cu, tol),
            trace_node(n, i),
            trace_node(n, j),
        ),
    ensures
        exists|a: int, k: int|
            0 <= a < n.pins.len() && 0 <= k < n.traces.len() && n.traces[k].layer
                == n.traces[i].layer && #[trigger] line_touches(
                n.pins[a].at,
                n.traces[k].path,
                tol,
            ) && union_find::joined(connectivity::links(n, cu, tol), trace_node(n, i), a),
        exists|a: int, k: int|
            0 <= a < n.pins.len() && 0 <= k < n.traces.len() && n.traces[k].layer
                == n.traces[j].layer && #[trigger] line_touches(
                n.pins[a].at,
                n.traces[k].path,
                tol,
            ) && union_find::joined(connectivity::links(n, cu, tol), trace_node(n, j), a),
{
    let links = connectivity::links(n, cu, tol);
    let (x, y) = (trace_node(n, i), trace_node(n, j));
    union_find::joined_symmetric(links, x, y);
    let (a, k) = pin_of_a_layer(n, cu, tol, i, y);
    assert(line_touches(n.pins[a].at, n.traces[k].path, tol));
    let (b, m) = pin_of_a_layer(n, cu, tol, j, x);
    assert(line_touches(n.pins[b].at, n.traces[m].path, tol));
}

proof fn pin_of_a_layer(
    n: NetCopper,
    cu: Seq<SlabV>,
    tol: int,
    i: int,
    y: int,
) -> (r: (int, int))
    requires
        n.vias.len() == 0,
        n.islands.len() == 0,
        0 <= i < n.traces.len(),
        only_layer(n, y) is Some,
        only_layer(n, y) != Some(n.traces[i].layer),
        union_find::joined(connectivity::links(n, cu, tol), trace_node(n, i), y),
    ensures
        0 <= r.0 < n.pins.len(),
        0 <= r.1 < n.traces.len(),
        n.traces[r.1].layer == n.traces[i].layer,
        line_touches(n.pins[r.0].at, n.traces[r.1].path, tol),
        union_find::joined(connectivity::links(n, cu, tol), trace_node(n, i), r.0),
{
    let links = connectivity::links(n, cu, tol);
    let x = trace_node(n, i);
    let name = n.traces[i].layer;
    assert(connectivity::node(n, x) == Node::Trace(i));
    layers_join_through_pins_and_vias(n, cu, tol, x, y);
    let z = choose|z: int|
        0 <= z < connectivity::node_count(n) && only_layer(n, z) is None && bridges(
            n,
            cu,
            tol,
            z,
            name,
        ) && #[trigger] union_find::joined(links, x, z);
    let q = choose|q: int|
        #![trigger only_layer(n, q)]
        are_linked(n, cu, tol, z, q) && only_layer(n, q) == Some(name);
    let k = q - n.pins.len();
    assert(0 <= k < n.traces.len());
    pin_and_trace_link_where_they_touch(n, cu, tol, z, k);
    (z, k)
}

/// Copper on one layer alone stays together only by touching: without pins, vias and islands
/// joined traces are all on one layer.
pub proof fn traces_alone_keep_to_their_layer(
    n: NetCopper,
    cu: Seq<SlabV>,
    tol: int,
    i: int,
    j: int,
)
    requires
        n.pins.len() == 0,
        n.vias.len() == 0,
        n.islands.len() == 0,
        0 <= i < n.traces.len(),
        0 <= j < n.traces.len(),
        union_find::joined(
            connectivity::links(n, cu, tol),
            trace_node(n, i),
            trace_node(n, j),
        ),
    ensures
        n.traces[i].layer == n.traces[j].layer,
{
    if n.traces[i].layer != n.traces[j].layer {
        traces_change_layers_at_pins(n, cu, tol, i, j);
    }
}

// ---------------------------------------------------------------------------
// Counting groups.
// ---------------------------------------------------------------------------

/// The node is joined to one of the list.
pub open spec fn represented(links: Set<(int, int)>, r: Seq<int>, x: int) -> bool {
    exists|i: int| 0 <= i < r.len() && #[trigger] union_find::joined(links, r[i], x)
}

/// The groups are counted by one pin of each: there are that many pins no two of which are
/// joined, and every pin is joined to one of them.
pub proof fn groups_have_representatives(links: Set<(int, int)>, k: nat) -> (r: Seq<int>)
    ensures
        r.len() == union_find::groups(links, k),
        forall|i: int| 0 <= i < r.len() ==> 0 <= #[trigger] r[i] < k,
        forall|i: int, j: int|
            0 <= i < j < r.len() ==> !union_find::joined(links, #[trigger] r[i], #[trigger] r[j]),
        forall|x: int| 0 <= x < k ==> #[trigger] represented(links, r, x),
    decreases k,
{
    if k == 0 {
        Seq::empty()
    } else {
        let done = groups_have_representatives(links, (k - 1) as nat);
        let x = k - 1;
        union_find::joined_reflexive(links, x);
        if union_find::is_first(links, x) {
            let r = done.push(x);
            assert forall|y: int| 0 <= y < k implies #[trigger] represented(links, r, y) by {
                if y < x {
                    assert(represented(links, done, y));
                    let i = choose|i: int|
                        0 <= i < done.len() && #[trigger] union_find::joined(links, done[i], y);
                    assert(r[i] == done[i]);
                    assert(union_find::joined(links, r[i], y));
                } else {
                    assert(union_find::joined(links, r[done.len() as int], y));
                }
            }
            r
        } else {
            let y = choose|y: int| 0 <= y < x && #[trigger] union_find::joined(links, y, x);
            assert(represented(links, done, y));
            let i = choose|i: int|
                0 <= i < done.len() && #[trigger] union_find::joined(links, done[i], y);
            union_find::joined_transitive(links, done[i], y, x);
            assert forall|z: int| 0 <= z < k implies #[trigger] represented(links, done, z) by {
                if z < x {
                    assert(represented(links, done, z));
                } else {
                    assert(union_find::joined(links, done[i], z));
                }
            }
            done
        }
    }
}

} // verus!
