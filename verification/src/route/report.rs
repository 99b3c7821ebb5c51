//! What the design check reports of the copper of a board.

use super::connectivity;
use super::contact;
use super::drc;
use super::drc::Board;
use super::layer;
use super::layer::{TraceV, ViaV};
use super::rules::ViolationV;
use crate::coord::Nm;
use crate::doc::DocV;
use crate::geom::clearance;
use crate::geom::feature;
use crate::geom::feature::NetFeatureV;
use crate::geom::gap;
use crate::geom::shape;
use crate::geom::shape::ShapeV;
use crate::geom::stackup;
use crate::geom::stackup::{KeepoutKind, Role, SlabV};
use crate::id::TraceId;
use crate::text;
use vstd::prelude::*;

verus! {

/// The feature is copper of that net, on the slab.
pub open spec fn copper_on(f: NetFeatureV, net: Seq<char>, slab: SlabV) -> bool {
    f.net == Some(net) && f.feature.role == Role::Conductor && f.feature.z == slab.z
}

/// The shapes can be measured: they have points, and no negative radius.
pub open spec fn solid(s: ShapeV) -> bool {
    shape::skeleton(s).len() > 0 && shape::radius_of(s) >= 0
}

/// Two shapes come nearer to each other than `clr`: one holds a corner of the other, or their
/// skeletons have two points nearer than `clr` and both radii.
pub open spec fn too_near(a: ShapeV, b: ShapeV, clr: int) -> bool {
    gap::holds_a_corner(a, b) || gap::pieces_within(
        a,
        b,
        clr + shape::radius_of(a) + shape::radius_of(b),
    )
}

proof fn copper_is_a_conductor(f: NetFeatureV, net: Seq<char>, cu: Seq<SlabV>, k: int)
    requires
        contact::heights_differ(cu),
        0 <= k < cu.len(),
        copper_on(f, net, cu[k]),
    ensures
        drc::conductor(f, cu) == Some((cu[k].name, f.feature.shape is Area, net)),
{
    contact::height_is_index(cu, k);
}

/// Copper of two nets on one slab that comes too near, solid and solid or pour and pour, is
/// reported: once for the two nets, in the order of their names, on that slab.
pub proof fn near_copper_is_reported(
    b: Board,
    i: int,
    j: int,
    k: int,
    one: Seq<char>,
    other: Seq<char>,
)
    requires
        0 <= i < b.world.len(),
        0 <= j < b.world.len(),
        0 <= k < stackup::copper_of(b.su).len(),
        contact::heights_differ(stackup::copper_of(b.su)),
        stackup::copper_of(b.su)[k].z.lo <= stackup::copper_of(b.su)[k].z.hi,
        copper_on(b.world[i], one, stackup::copper_of(b.su)[k]),
        copper_on(b.world[j], other, stackup::copper_of(b.su)[k]),
        text::lex_lt(one, other),
        (b.world[i].feature.shape is Area) == (b.world[j].feature.shape is Area),
        solid(b.world[i].feature.shape),
        solid(b.world[j].feature.shape),
        b.rules.min_clearance > 0,
        too_near(
            b.world[i].feature.shape,
            b.world[j].feature.shape,
            b.rules.min_clearance as int,
        ),
    ensures
        drc::is_violation(
            b,
            ViolationV::Clearance {
                a: one,
                b: other,
                layer: stackup::copper_of(b.su)[k].name,
            },
        ),
{
    let cu = stackup::copper_of(b.su);
    let clr = b.rules.min_clearance;
    let (f, g) = (b.world[i].feature, b.world[j].feature);
    let v = ViolationV::Clearance { a: one, b: other, layer: cu[k].name };
    copper_is_a_conductor(b.world[i], one, cu, k);
    copper_is_a_conductor(b.world[j], other, cu, k);
    gap::clearance_is_the_distance(f.shape, g.shape, clr as int);
    feature::clear_of_symmetric(f, g, clr as int);
    text::lex_lt_irreflexive(one);
    text::lex_lt_asymmetric(one, other);
    assert(i != j);
    if i < j {
        assert(drc::close_at(b.world, cu, clr, i, j, v));
    } else {
        assert(drc::close_at(b.world, cu, clr, j, i, v));
    }
}

/// A clearance that is reported is between copper of the two nets that comes too near at a
/// common height.
pub proof fn reported_clearance_is_near_copper(
    b: Board,
    one: Seq<char>,
    other: Seq<char>,
    name: Seq<char>,
)
    requires
        drc::is_violation(b, ViolationV::Clearance { a: one, b: other, layer: name }),
        b.rules.min_clearance > 0,
        forall|i: int| 0 <= i < b.world.len() ==> solid((#[trigger] b.world[i]).feature.shape),
    ensures
        exists|i: int, j: int|
            0 <= i < b.world.len() && 0 <= j < b.world.len() && (#[trigger] b.world[i]).net == Some(
                one,
            ) && (#[trigger] b.world[j]).net == Some(other) && b.world[i].feature.role
                == Role::Conductor && b.world[j].feature.role == Role::Conductor
                && b.world[i].feature.z.meets(b.world[j].feature.z) && too_near(
                b.world[i].feature.shape,
                b.world[j].feature.shape,
                b.rules.min_clearance as int,
            ),
{
    let cu = stackup::copper_of(b.su);
    let clr = b.rules.min_clearance;
    let v = ViolationV::Clearance { a: one, b: other, layer: name };
    let (i, j) = choose|i: int, j: int|
        0 <= i < j < b.world.len() && #[trigger] drc::close_at(b.world, cu, clr, i, j, v);
    let (f, g) = (b.world[i].feature, b.world[j].feature);
    gap::clearance_is_the_distance(f.shape, g.shape, clr as int);
    gap::clearance_is_the_distance(g.shape, f.shape, clr as int);
    clearance::violates_symmetric(f.shape, g.shape, clr as int);
    if b.world[i].net == Some(one) {
        assert(b.world[j].net == Some(other));
    } else {
        assert(b.world[j].net == Some(one) && b.world[i].net == Some(other));
    }
}

/// Exactly the traces that are narrower than the rule are reported, each with its width.
pub proof fn narrow_traces_are_reported(b: Board, trace: TraceId, width: Nm)
    ensures
        drc::is_violation(b, ViolationV::MinWidth { trace, width }) <==> exists|i: int|
            0 <= i < b.doc.traces.len() && (#[trigger] b.doc.traces[i]).0 == trace
                && b.doc.traces[i].1.width == width && width < b.rules.min_trace_width,
{
    let v = ViolationV::MinWidth { trace, width };
    let min = b.rules.min_trace_width;
    if drc::is_violation(b, v) {
        let i = choose|i: int|
            0 <= i < b.doc.traces.len() && #[trigger] drc::narrow_at(b.doc, min, i, v);
        assert(b.doc.traces[i].0 == trace);
    }
    if exists|i: int|
        0 <= i < b.doc.traces.len() && (#[trigger] b.doc.traces[i]).0 == trace
            && b.doc.traces[i].1.width == width && width < min {
        let i = choose|i: int|
            0 <= i < b.doc.traces.len() && (#[trigger] b.doc.traces[i]).0 == trace
                && b.doc.traces[i].1.width == width && width < min;
        assert(drc::narrow_at(b.doc, min, i, v));
    }
}

/// Copper that comes nearer to a copper or route keep-out than a positive rule, at a common
/// height, is reported.
pub proof fn copper_near_a_keepout_is_reported(
    b: Board,
    i: int,
    j: int,
    k: int,
    net: Seq<char>,
    kind: KeepoutKind,
)
    requires
        0 <= i < b.world.len(),
        0 <= j < b.world.len(),
        0 <= k < stackup::copper_of(b.su).len(),
        contact::heights_differ(stackup::copper_of(b.su)),
        copper_on(b.world[i], net, stackup::copper_of(b.su)[k]),
        b.world[j].feature.role == Role::Keepout(kind),
        kind == KeepoutKind::Copper || kind == KeepoutKind::Route,
        b.world[i].feature.z.meets(b.world[j].feature.z),
        solid(b.world[i].feature.shape),
        solid(b.world[j].feature.shape),
        b.rules.keepout_clearance > 0,
        too_near(
            b.world[i].feature.shape,
            b.world[j].feature.shape,
            b.rules.keepout_clearance as int,
        ),
    ensures
        drc::is_violation(b, ViolationV::Keepout { net, kind }),
{
    let cu = stackup::copper_of(b.su);
    let clr = b.rules.keepout_clearance;
    let (f, g) = (b.world[i].feature, b.world[j].feature);
    copper_is_a_conductor(b.world[i], net, cu, k);
    gap::closer_is_the_distance(f.shape, g.shape, clr as int);
    assert(drc::intrudes_at(b.world, cu, clr, i, j, ViolationV::Keepout { net, kind }));
}

/// A keep-out that is reported is one of copper or of routes, and copper of that net shares a
/// height with it. Keep-outs of components and of drills are never reported.
pub proof fn reported_keepouts_bar_copper(b: Board, net: Seq<char>, kind: KeepoutKind)
    requires
        drc::is_violation(b, ViolationV::Keepout { net, kind }),
    ensures
        kind == KeepoutKind::Copper || kind == KeepoutKind::Route,
        exists|i: int, j: int|
            0 <= i < b.world.len() && 0 <= j < b.world.len() && (#[trigger] b.world[i]).net == Some(
                net,
            ) && b.world[i].feature.role == Role::Conductor && (
            #[trigger] b.world[j]).feature.role == Role::Keepout(kind)
                && b.world[i].feature.z.meets(b.world[j].feature.z),
{
    let cu = stackup::copper_of(b.su);
    let clr = b.rules.keepout_clearance;
    let v = ViolationV::Keepout { net, kind };
    let (i, j) = choose|i: int, j: int|
        0 <= i < b.world.len() && 0 <= j < b.world.len() && #[trigger] drc::intrudes_at(
            b.world,
            cu,
            clr,
            i,
            j,
            v,
        );
    assert(b.world[i].net == Some(net) && b.world[j].feature.role == Role::Keepout(kind));
}

// ---------------------------------------------------------------------------
// The board edge.
// ---------------------------------------------------------------------------

/// Solid copper of some net on some slab.
pub open spec fn is_solid_copper(f: NetFeatureV, cu: Seq<SlabV>) -> bool {
    &&& f.net is Some
    &&& f.feature.role == Role::Conductor
    &&& !(f.feature.shape is Area)
    &&& exists|k: int| 0 <= k < cu.len() && (#[trigger] cu[k]).z == f.feature.z
}

proof fn solid_copper_conducts(f: NetFeatureV, cu: Seq<SlabV>)
    ensures
        is_solid_copper(f, cu) <==> (drc::conductor(f, cu) matches Some((_, p, n)) && !p && Some(n)
            == f.net),
        is_solid_copper(f, cu) <==> (drc::conductor(f, cu) matches Some((_, p, _)) && !p),
{
    layer::z_index_is_first(cu, f.feature.z);
    let i = layer::z_index(cu, f.feature.z);
    if i < cu.len() {
        assert(cu[i].z == f.feature.z);
    }
    if is_solid_copper(f, cu) {
        let k = choose|k: int| 0 <= k < cu.len() && (#[trigger] cu[k]).z == f.feature.z;
        if i >= cu.len() {
            assert(cu[k].z != f.feature.z);
        }
    }
}

proof fn edge_jobs_so_far(
    w: Seq<NetFeatureV>,
    k: nat,
    cu: Seq<SlabV>,
    edge: Nm,
    m: int,
    i: int,
)
    requires
        k <= w.len(),
    ensures
        0 <= m < drc::edge_jobs_of(w, k, cu, edge).len() ==> {
            let j = drc::edge_jobs_of(w, k, cu, edge)[m];
            0 <= j.0 < k && is_solid_copper(w[j.0], cu) && j.1 == shape::inflate(
                w[j.0].feature.shape,
                edge as int,
            )
        },
        0 <= i < k && is_solid_copper(w[i], cu) ==> exists|m: int|
            0 <= m < drc::edge_jobs_of(w, k, cu, edge).len() && (#[trigger] drc::edge_jobs_of(
                w,
                k,
                cu,
                edge,
            )[m]).0 == i,
    decreases k,
{
    if k > 0 {
        let done = drc::edge_jobs_of(w, (k - 1) as nat, cu, edge);
        let all = drc::edge_jobs_of(w, k, cu, edge);
        edge_jobs_so_far(w, (k - 1) as nat, cu, edge, m, i);
        solid_copper_conducts(w[k - 1], cu);
        if 0 <= m < all.len() && m < done.len() {
            assert(all[m] == done[m]);
        }
        if 0 <= i < k && is_solid_copper(w[i], cu) {
            if i < k - 1 {
                let n = choose|n: int| 0 <= n < done.len() && (#[trigger] done[n]).0 == i;
                assert(all[n].0 == i);
            } else {
                assert(all[done.len() as int].0 == i);
            }
        }
    }
}

/// What is held against the board edge is exactly the solid copper of all nets, each piece
/// grown by the edge rule. Pours are not.
pub proof fn solid_copper_is_held_against_the_edge(b: Board, m: int, i: int)
    ensures
        ({
            let cu = stackup::copper_of(b.su);
            let jobs = drc::edge_jobs_of(b.world, b.world.len(), cu, b.rules.edge_clearance);
            &&& 0 <= m < jobs.len() ==> 0 <= jobs[m].0 < b.world.len() && is_solid_copper(
                b.world[jobs[m].0],
                cu,
            ) && jobs[m].1 == shape::inflate(
                b.world[jobs[m].0].feature.shape,
                b.rules.edge_clearance as int,
            )
            &&& 0 <= i < b.world.len() && is_solid_copper(b.world[i], cu) ==> exists|n: int|
                0 <= n < jobs.len() && (#[trigger] jobs[n]).0 == i
        }),
{
    let cu = stackup::copper_of(b.su);
    edge_jobs_so_far(b.world, b.world.len(), cu, b.rules.edge_clearance, m, i);
}

/// On a board, a net is reported for the edge exactly when some grown piece of its solid
/// copper spills over.
pub proof fn spilling_copper_is_reported(b: Board, net: Seq<char>)
    requires
        b.spills.len() == drc::edge_jobs_of(
            b.world,
            b.world.len(),
            stackup::copper_of(b.su),
            b.rules.edge_clearance,
        ).len(),
    ensures
        ({
            let cu = stackup::copper_of(b.su);
            let jobs = drc::edge_jobs_of(b.world, b.world.len(), cu, b.rules.edge_clearance);
            drc::is_violation(b, ViolationV::EdgeClearance { net }) <==> (exists|j: int|
                0 <= j < b.world.len() && (#[trigger] b.world[j]).feature.role == Role::Substrate
                    && b.world[j].feature.shape is Area) && exists|m: int|
                0 <= m < jobs.len() && b.spills[m] && b.world[(#[trigger] jobs[m]).0].net == Some(
                    net,
                )
        }),
{
    let cu = stackup::copper_of(b.su);
    let edge = b.rules.edge_clearance;
    let jobs = drc::edge_jobs_of(b.world, b.world.len(), cu, edge);
    let v = ViolationV::EdgeClearance { net };
    if drc::is_violation(b, v) {
        let m = choose|m: int|
            0 <= m < b.spills.len() && #[trigger] drc::spills_at(
                b.world,
                cu,
                edge,
                b.spills,
                m,
                v,
            );
        let j = choose|j: int| 0 <= j < b.world.len() && #[trigger] drc::is_board(b.world[j]);
        assert(b.world[j].feature.role == Role::Substrate);
        solid_copper_is_held_against_the_edge(b, m, 0);
        solid_copper_conducts(b.world[jobs[m].0], cu);
        assert(b.world[jobs[m].0].net == Some(net));
    }
    if (exists|j: int|
        0 <= j < b.world.len() && (#[trigger] b.world[j]).feature.role == Role::Substrate
            && b.world[j].feature.shape is Area) && exists|m: int|
        0 <= m < jobs.len() && b.spills[m] && b.world[(#[trigger] jobs[m]).0].net == Some(net) {
        let j = choose|j: int|
            0 <= j < b.world.len() && (#[trigger] b.world[j]).feature.role == Role::Substrate
                && b.world[j].feature.shape is Area;
        assert(drc::is_board(b.world[j]));
        let m = choose|m: int|
            0 <= m < jobs.len() && b.spills[m] && b.world[(#[trigger] jobs[m]).0].net == Some(net);
        solid_copper_is_held_against_the_edge(b, m, 0);
        solid_copper_conducts(b.world[jobs[m].0], cu);
        assert(drc::spills_at(b.world, cu, edge, b.spills, m, v));
    }
}

// ---------------------------------------------------------------------------
// The copper of a net.
// ---------------------------------------------------------------------------

proof fn traces_of_a_net(d: DocV, net: Seq<char>, k: nat, t: TraceV)
    requires
        k <= d.traces.len(),
    ensures
        drc::traces_of(d, net, k).contains(t) <==> t.net == net && exists|i: int|
            0 <= i < k && (#[trigger] d.traces[i]).1 == t,
    decreases k,
{
    let all = drc::traces_of(d, net, k);
    if k > 0 {
        let done = drc::traces_of(d, net, (k - 1) as nat);
        let x = d.traces[k - 1].1;
        traces_of_a_net(d, net, (k - 1) as nat, t);
        if done.contains(t) {
            let i = choose|i: int| 0 <= i < done.len() && done[i] == t;
            assert(all[i] == t);
        }
        if x.net == net {
            assert(all == done.push(x));
            assert(all[done.len() as int] == x);
            if all.contains(t) {
                let i = choose|i: int| 0 <= i < all.len() && all[i] == t;
                if i < done.len() {
                    assert(done[i] == t);
                } else {
                    assert(d.traces[k - 1].1 == t);
                }
            }
        }
    }
}

proof fn vias_of_a_net(d: DocV, net: Seq<char>, k: nat, t: ViaV)
    requires
        k <= d.vias.len(),
    ensures
        drc::vias_of(d, net, k).contains(t) <==> t.net == net && exists|i: int|
            0 <= i < k && (#[trigger] d.vias[i]).1 == t,
    decreases k,
{
    let all = drc::vias_of(d, net, k);
    if k > 0 {
        let done = drc::vias_of(d, net, (k - 1) as nat);
        let x = d.vias[k - 1].1;
        vias_of_a_net(d, net, (k - 1) as nat, t);
        if done.contains(t) {
            let i = choose|i: int| 0 <= i < done.len() && done[i] == t;
            assert(all[i] == t);
        }
        if x.net == net {
            assert(all == done.push(x));
            assert(all[done.len() as int] == x);
            if all.contains(t) {
                let i = choose|i: int| 0 <= i < all.len() && all[i] == t;
                if i < done.len() {
                    assert(done[i] == t);
                } else {
                    assert(d.vias[k - 1].1 == t);
                }
            }
        }
    }
}

/// What joins the pins of a net is its own copper: exactly the traces and the vias of the
/// document that are on it, and the islands of its pours.
pub proof fn a_net_is_joined_by_its_own_copper(b: Board, k: int, t: TraceV, v: ViaV)
    requires
        0 <= k < b.netlist.len(),
    ensures
        ({
            let n = drc::net_copper(b.doc, b.lib, b.netlist, b.su, b.islands, k);
            let net = b.netlist[k].0;
            &&& n.traces.contains(t) <==> t.net == net && exists|i: int|
                0 <= i < b.doc.traces.len() && (#[trigger] b.doc.traces[i]).1 == t
            &&& n.vias.contains(v) <==> v.net == net && exists|i: int|
                0 <= i < b.doc.vias.len() && (#[trigger] b.doc.vias[i]).1 == v
            &&& n.islands == b.islands[k]
        }),
{
    traces_of_a_net(b.doc, b.netlist[k].0, b.doc.traces.len(), t);
    vias_of_a_net(b.doc, b.netlist[k].0, b.doc.vias.len(), v);
}

/// A net of two pins or more is reported as unrouted with the number of groups that its pins
/// fall into, and only where there is more than one.
pub proof fn unrouted_nets_are_counted(b: Board, net: Seq<char>, islands: usize)
    ensures
        drc::is_violation(b, ViolationV::Unrouted { net, islands }) <==> exists|k: int|
            0 <= k < b.netlist.len() && (#[trigger] b.netlist[k]).0 == net
                && b.netlist[k].1.len() >= 2 && {
                let n = drc::net_copper(b.doc, b.lib, b.netlist, b.su, b.islands, k);
                let groups = connectivity::island_count(
                    n,
                    stackup::copper_of(b.su),
                    b.rules.touch_tol as int,
                );
                groups > 1 && islands == groups as usize
            },
{
    let v = ViolationV::Unrouted { net, islands };
    let tol = b.rules.touch_tol;
    if drc::is_violation(b, v) {
        let k = choose|k: int|
            0 <= k < b.netlist.len() && #[trigger] drc::unrouted_at(
                b.doc,
                b.lib,
                b.netlist,
                b.su,
                tol,
                b.islands,
                k,
                v,
            );
        assert(b.netlist[k].0 == net);
    }
    if exists|k: int|
        0 <= k < b.netlist.len() && (#[trigger] b.netlist[k]).0 == net && b.netlist[k].1.len() >= 2
            && {
            let n = drc::net_copper(b.doc, b.lib, b.netlist, b.su, b.islands, k);
            let groups = connectivity::island_count(n, stackup::copper_of(b.su), tol as int);
            groups > 1 && islands == groups as usize
        } {
        let k = choose|k: int|
            0 <= k < b.netlist.len() && (#[trigger] b.netlist[k]).0 == net
                && b.netlist[k].1.len() >= 2 && {
                let n = drc::net_copper(b.doc, b.lib, b.netlist, b.su, b.islands, k);
                let groups = connectivity::island_count(n, stackup::copper_of(b.su), tol as int);
                groups > 1 && islands == groups as usize
            };
        assert(drc::unrouted_at(b.doc, b.lib, b.netlist, b.su, tol, b.islands, k, v));
    }
}

} // verus!
