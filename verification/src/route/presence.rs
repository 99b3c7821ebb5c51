//! The copper and the holes of a document are in its world, as large as the document says.

use super::connectivity;
use super::connectivity::{NetlistV, PinPointV};
use super::contact;
use super::drc;
use super::features;
use super::features::{CopperList, SourceV};
use super::layer;
use crate::coord::{Nm, Point};
use crate::doc;
use crate::doc::{ComponentV, DocV, PinRefV};
use crate::geom::feature::{FeatureV, NetFeatureV};
use crate::geom::gap;
use crate::geom::gap::covers;
use crate::geom::nearness::{fraction, off2};
use crate::geom::path;
use crate::geom::shape;
use crate::geom::shape::ShapeV;
use crate::geom::stackup;
use crate::geom::stackup::{Role, SlabV, ZRange};
use crate::ir::RegionV;
use crate::names;
use crate::part;
use crate::part::geometry;
use crate::part::placement;
use crate::part::{PartV, PinRole, PinV};
use vstd::prelude::*;

verus! {

/// The squared distance of two points.
pub open spec fn apart2(p: Point, q: Point) -> int {
    (p.x - q.x) * (p.x - q.x) + (p.y - q.y) * (p.y - q.y)
}

/// The shape is the disc of that diameter about `c`: it covers every point within half of it,
/// rounded down, and none beyond half of it.
pub open spec fn is_round(s: ShapeV, c: Point, diameter: Nm) -> bool {
    &&& forall|q: Point, r: int|
        0 <= r && 2 * r <= diameter && #[trigger] apart2(q, c) <= #[trigger] (r * r) ==> covers(
            s,
            q,
        )
    &&& forall|q: Point|
        #[trigger] covers(s, q) ==> 4 * apart2(q, c) <= diameter * diameter
}

/// The shape is the line of that width along the points: it covers every point within half of
/// it, rounded down, of some point of the line, and none beyond half of it of all of them.
pub open spec fn is_line(s: ShapeV, path: Seq<Point>, width: Nm) -> bool {
    &&& forall|q: Point, a: Point, b: Point, t: real, r: int|
        0 <= r && 2 * r <= width && gap::follow(path, a, b) && fraction(t) && #[trigger] off2(
            q,
            a,
            b,
            t,
        ) <= (#[trigger] (r * r)) as real ==> covers(s, q)
    &&& forall|q: Point| #[trigger]
        covers(s, q) ==> exists|a: Point, b: Point, t: real|
            gap::follow(path, a, b) && fraction(t) && 4 as real * (#[trigger] off2(q, a, b, t)) <= (
            width * width) as real
}

/// The feature is copper of that net at that height.
pub open spec fn is_copper(f: NetFeatureV, net: Seq<char>, z: ZRange) -> bool {
    f.net == Some(net) && f.feature.role == Role::Conductor && f.feature.z == z
}

// ---------------------------------------------------------------------------
// Sizes.
// ---------------------------------------------------------------------------

proof fn half_is_the_most(n: Nm, r: int)
    requires
        n >= 0,
    ensures
        0 <= path::half(n as int) <= i64::MAX,
        2 * path::half(n as int) <= n,
        4 * (path::half(n as int) * path::half(n as int)) <= n * n,
        0 <= r && 2 * r <= n ==> r * r <= path::half(n as int) * path::half(n as int),
{
    let h = path::half(n as int);
    assert(4 * (h * h) <= n * n) by (nonlinear_arith)
        requires
            0 <= 2 * h <= n,
    ;
    if 0 <= r && 2 * r <= n {
        assert(r <= h);
        assert(r * r <= h * h) by (nonlinear_arith)
            requires
                0 <= r <= h,
        ;
    }
}

/// A disc of half a diameter is the disc of that diameter.
proof fn disc_has_its_diameter(c: Point, d: Nm)
    requires
        d >= 0,
    ensures
        is_round(shape::disc_of(c, path::half(d as int)), c, d),
{
    let h = path::half(d as int);
    let s = shape::disc_of(c, h);
    half_is_the_most(d, 0);
    assert forall|q: Point, r: int|
        0 <= r && 2 * r <= d && #[trigger] apart2(q, c) <= #[trigger] (r * r) implies covers(
        s,
        q,
    ) by {
        half_is_the_most(d, r);
        gap::disc_is_round(c, h as i64, q);
    }
    assert forall|q: Point| #[trigger] covers(s, q) implies 4 * apart2(q, c) <= d * d by {
        gap::disc_is_round(c, h as i64, q);
    }
}

/// A trace of a width is the line of that width.
proof fn trace_has_its_width(points: Seq<Point>, w: Nm)
    requires
        w >= 0,
        points.len() > 0,
    ensures
        is_line(shape::trace_of(points, w as int), points, w),
{
    let s = shape::trace_of(points, w as int);
    let h = path::half(w as int);
    half_is_the_most(w, 0);
    gap::trace_is_its_path(points, w as int);
    assert(shape::radius_of(s) == h);
    assert forall|q: Point, a: Point, b: Point, t: real, r: int|
        0 <= r && 2 * r <= w && gap::follow(points, a, b) && fraction(t) && #[trigger] off2(
            q,
            a,
            b,
            t,
        ) <= (#[trigger] (r * r)) as real implies covers(s, q) by {
        half_is_the_most(w, r);
        assert(gap::drawn(s, a, b));
        assert(off2(q, a, b, t) <= (h * h) as real);
    }
    assert forall|q: Point| #[trigger] covers(s, q) implies exists|a: Point, b: Point, t: real|
        gap::follow(points, a, b) && fraction(t) && 4 as real * (#[trigger] off2(q, a, b, t)) <= (w
            * w) as real by {
        let (a, b, t) = choose|a: Point, b: Point, t: real|
            #![trigger off2(q, a, b, t)]
            gap::drawn(s, a, b) && fraction(t) && off2(q, a, b, t) <= (h * h) as real;
        assert(gap::follow(points, a, b));
        assert(4 as real * off2(q, a, b, t) <= (w * w) as real);
    }
}

// ---------------------------------------------------------------------------
// Membership.
// ---------------------------------------------------------------------------

/// The solid copper of a document is in its world.
proof fn solid_is_in_the_world(
    d: DocV,
    lib: Seq<(Seq<char>, PartV)>,
    nl: NetlistV,
    clr: int,
    su: Seq<SlabV>,
    src: SourceV,
    fills: Seq<Seq<Seq<Point>>>,
    x: NetFeatureV,
)
    requires
        features::world_of(d, lib, nl, clr, su, src, fills) is Ok,
        features::unnamed(features::solid_of_doc(d, lib, nl, su)).contains(x),
    ensures
        features::world_of(d, lib, nl, clr, su, src, fills)->Ok_0.contains(x),
{
    let solid = features::solid_of_doc(d, lib, nl, su);
    let w = features::world_of(d, lib, nl, clr, su, src, fills)->Ok_0;
    let front = src.features->Ok_0 + features::via_drills(d, su) + features::components_rest(
        d,
        d.components.len(),
        lib,
        su,
        src,
    );
    let s = features::unnamed(solid);
    let k = choose|k: int| 0 <= k < s.len() && s[k] == x;
    assert(w[front.len() + k] == x);
}

proof fn trace_is_solid(
    d: DocV,
    lib: Seq<(Seq<char>, PartV)>,
    nl: NetlistV,
    su: Seq<SlabV>,
    i: int,
    k: nat,
    e: (Seq<char>, NetFeatureV),
)
    requires
        0 <= i < k <= d.traces.len(),
        features::trace_copper(d.traces[i].1, stackup::copper_of(su)).contains(e),
    ensures
        features::traces_copper(d, k, su).contains(e),
    decreases k,
{
    let cu = stackup::copper_of(su);
    let done = features::traces_copper(d, (k - 1) as nat, su);
    let own = features::trace_copper(d.traces[k - 1].1, cu);
    if i < k - 1 {
        trace_is_solid(d, lib, nl, su, i, (k - 1) as nat, e);
    }
    joined_holds(done, own, e);
}

proof fn via_is_solid(
    d: DocV,
    su: Seq<SlabV>,
    i: int,
    k: nat,
    e: (Seq<char>, NetFeatureV),
)
    requires
        0 <= i < k <= d.vias.len(),
        features::via_copper(d.vias[i].1, stackup::copper_of(su)).contains(e),
    ensures
        features::vias_copper(d, k, su).contains(e),
    decreases k,
{
    let cu = stackup::copper_of(su);
    let done = features::vias_copper(d, (k - 1) as nat, su);
    let own = features::via_copper(d.vias[k - 1].1, cu);
    if i < k - 1 {
        via_is_solid(d, su, i, (k - 1) as nat, e);
    }
    joined_holds(done, own, e);
}

proof fn joined_holds(
    a: CopperList,
    b: CopperList,
    e: (Seq<char>, NetFeatureV),
)
    requires
        a.contains(e) || b.contains(e),
    ensures
        (a + b).contains(e),
{
    if a.contains(e) {
        let i = choose|i: int| 0 <= i < a.len() && a[i] == e;
        assert((a + b)[i] == e);
    } else {
        let i = choose|i: int| 0 <= i < b.len() && b[i] == e;
        assert((a + b)[a.len() + i] == e);
    }
}

proof fn routed_is_solid(
    d: DocV,
    lib: Seq<(Seq<char>, PartV)>,
    nl: NetlistV,
    su: Seq<SlabV>,
    e: (Seq<char>, NetFeatureV),
)
    requires
        features::traces_copper(d, d.traces.len(), su).contains(e) || features::vias_copper(
            d,
            d.vias.len(),
            su,
        ).contains(e),
    ensures
        features::solid_of_doc(d, lib, nl, su).contains(e),
        features::unnamed(features::solid_of_doc(d, lib, nl, su)).contains(e.1),
{
    let t = features::traces_copper(d, d.traces.len(), su);
    let v = features::vias_copper(d, d.vias.len(), su);
    let on = features::components_copper(d, d.components.len(), lib, nl, su, true);
    let off = features::components_copper(d, d.components.len(), lib, nl, su, false);
    joined_holds(t, v, e);
    joined_holds(t + v, on, e);
    joined_holds(t + v + on, off, e);
    let solid = features::solid_of_doc(d, lib, nl, su);
    let i = choose|i: int| 0 <= i < solid.len() && solid[i] == e;
    assert(features::unnamed(solid)[i] == e.1);
}

// ---------------------------------------------------------------------------
// Laws.
// ---------------------------------------------------------------------------

/// The world holds the pad of every via on every copper slab that the via goes through: copper
/// of its net, round, about the via, as wide as its pad, whatever its drill.
pub proof fn every_via_has_its_pad(
    d: DocV,
    lib: Seq<(Seq<char>, PartV)>,
    nl: NetlistV,
    clr: int,
    su: Seq<SlabV>,
    src: SourceV,
    fills: Seq<Seq<Seq<Point>>>,
    i: int,
    k: int,
)
    requires
        features::world_of(d, lib, nl, clr, su, src, fills) is Ok,
        0 <= i < d.vias.len(),
        d.vias[i].1.pad >= 0,
        0 <= k < stackup::copper_of(su).len(),
        contact::names_differ(stackup::copper_of(su)),
        contact::heights_differ(stackup::copper_of(su)),
        contact::goes_through(d.vias[i].1, stackup::copper_of(su), k),
    ensures
        exists|f: NetFeatureV| #[trigger]
            features::world_of(d, lib, nl, clr, su, src, fills)->Ok_0.contains(f) && is_copper(
                f,
                d.vias[i].1.net,
                stackup::copper_of(su)[k].z,
            ) && is_round(f.feature.shape, d.vias[i].1.at, d.vias[i].1.pad),
{
    let cu = stackup::copper_of(su);
    let v = d.vias[i].1;
    let spanned = layer::spanned_of(v, cu);
    contact::via_lands_on_what_it_goes_through(v, cu, k);
    let m = choose|m: int| 0 <= m < spanned.len() && spanned[m] == cu[k];
    let own = features::via_copper(v, cu);
    let e = own[m];
    assert(own.contains(e));
    via_is_solid(d, su, i, d.vias.len(), e);
    routed_is_solid(d, lib, nl, su, e);
    solid_is_in_the_world(d, lib, nl, clr, su, src, fills, e.1);
    disc_has_its_diameter(v.at, v.pad);
    assert(is_copper(e.1, v.net, cu[k].z));
    assert(is_round(e.1.feature.shape, v.at, v.pad));
}

/// The world holds the copper of every trace on the copper slab that it names: copper of its
/// net, along its path, as wide as the trace.
pub proof fn every_trace_has_its_copper(
    d: DocV,
    lib: Seq<(Seq<char>, PartV)>,
    nl: NetlistV,
    clr: int,
    su: Seq<SlabV>,
    src: SourceV,
    fills: Seq<Seq<Seq<Point>>>,
    i: int,
    k: int,
)
    requires
        features::world_of(d, lib, nl, clr, su, src, fills) is Ok,
        0 <= i < d.traces.len(),
        d.traces[i].1.width >= 0,
        d.traces[i].1.path.len() > 0,
        0 <= k < stackup::copper_of(su).len(),
        contact::names_differ(stackup::copper_of(su)),
        stackup::copper_of(su)[k].name == d.traces[i].1.layer,
    ensures
        exists|f: NetFeatureV| #[trigger]
            features::world_of(d, lib, nl, clr, su, src, fills)->Ok_0.contains(f) && is_copper(
                f,
                d.traces[i].1.net,
                stackup::copper_of(su)[k].z,
            ) && is_line(f.feature.shape, d.traces[i].1.path, d.traces[i].1.width),
{
    let cu = stackup::copper_of(su);
    let t = d.traces[i].1;
    let j = stackup::slab_index(cu, t.layer);
    stackup::slab_index_is_first(cu, t.layer);
    if j < k {
        assert(cu[j].name != cu[k].name);
    }
    let own = features::trace_copper(t, cu);
    let e = own[0];
    assert(own.contains(e));
    trace_is_solid(d, lib, nl, su, i, d.traces.len(), e);
    routed_is_solid(d, lib, nl, su, e);
    solid_is_in_the_world(d, lib, nl, clr, su, src, fills, e.1);
    trace_has_its_width(t.path, t.width);
    assert(is_copper(e.1, t.net, cu[k].z));
    assert(is_line(e.1.feature.shape, t.path, t.width));
}

/// The world holds the hole of every via: a void through the whole stackup, round, about the
/// via, as wide as its drill.
pub proof fn every_via_has_its_hole(
    d: DocV,
    lib: Seq<(Seq<char>, PartV)>,
    nl: NetlistV,
    clr: int,
    su: Seq<SlabV>,
    src: SourceV,
    fills: Seq<Seq<Seq<Point>>>,
    i: int,
)
    requires
        features::world_of(d, lib, nl, clr, su, src, fills) is Ok,
        0 <= i < d.vias.len(),
        d.vias[i].1.drill >= 0,
        su.len() > 0,
    ensures
        exists|f: NetFeatureV| #[trigger]
            features::world_of(d, lib, nl, clr, su, src, fills)->Ok_0.contains(f) && f.net is None
                && f.feature.role == Role::Void && through_all(f.feature, su) && is_round(
                f.feature.shape,
                d.vias[i].1.at,
                d.vias[i].1.drill,
            ),
{
    let v = d.vias[i].1;
    let w = features::world_of(d, lib, nl, clr, su, src, fills)->Ok_0;
    stackup::full_z_holds_all(su);
    let f = features::via_drills(d, su)[i];
    assert(w[src.features->Ok_0.len() + i] == f);
    assert(w.contains(f));
    assert(f.feature.z == stackup::full_z_of(su)->0);
    assert(through_all(f.feature, su));
    disc_has_its_diameter(v.at, v.drill);
    assert(is_round(f.feature.shape, v.at, v.drill));
}

/// The feature goes through every slab of the stackup.
pub open spec fn through_all(f: FeatureV, su: Seq<SlabV>) -> bool {
    forall|j: int|
        0 <= j < su.len() ==> f.z.lo <= (#[trigger] su[j]).z.lo && su[j].z.hi <= f.z.hi
}

// ---------------------------------------------------------------------------
// Pours.
// ---------------------------------------------------------------------------

proof fn obstacles_are_foreign(
    copper: CopperList,
    k: nat,
    name: Seq<char>,
    net: Seq<char>,
    clr: int,
    o: ShapeV,
)
    requires
        k <= copper.len(),
    ensures
        features::obstacles_of(copper, k, name, net, clr).contains(o) <==> exists|i: int|
            0 <= i < k && (#[trigger] copper[i]).0 == name && copper[i].1.net != Some(net) && o
                == shape::inflate(copper[i].1.feature.shape, clr),
    decreases k,
{
    let all = features::obstacles_of(copper, k, name, net, clr);
    if k > 0 {
        let done = features::obstacles_of(copper, (k - 1) as nat, name, net, clr);
        obstacles_are_foreign(copper, (k - 1) as nat, name, net, clr, o);
        let (l, f) = copper[k - 1];
        if l == name && f.net != Some(net) {
            let x = shape::inflate(f.feature.shape, clr);
            assert(all == done.push(x));
            if done.contains(o) {
                let i = choose|i: int| 0 <= i < done.len() && done[i] == o;
                assert(all[i] == o);
            }
            if o == x {
                assert(all[done.len() as int] == o);
            }
            if all.contains(o) {
                let i = choose|i: int| 0 <= i < all.len() && all[i] == o;
                if i < done.len() {
                    assert(done[i] == o);
                } else {
                    assert(copper[k - 1].0 == name);
                }
            }
        }
        if exists|i: int|
            0 <= i < k && (#[trigger] copper[i]).0 == name && copper[i].1.net != Some(net) && o
                == shape::inflate(copper[i].1.feature.shape, clr) {
            let i = choose|i: int|
                0 <= i < k && (#[trigger] copper[i]).0 == name && copper[i].1.net != Some(net) && o
                    == shape::inflate(copper[i].1.feature.shape, clr);
            if i < k - 1 {
                assert(copper[i].0 == name);
                assert(done.contains(o));
            }
        }
    }
}

/// A pour keeps off all copper on its slab that is not on its net, and off no other: for each
/// such piece it leaves out the piece grown by the clearance.
pub proof fn pours_keep_off_foreign_copper(
    r: RegionV,
    copper: CopperList,
    su: Seq<SlabV>,
    clr: int,
    o: ShapeV,
)
    requires
        features::job_of(r, copper, su, clr) is Some,
    ensures
        ({
            let j = features::job_of(r, copper, su, clr)->0;
            &&& r.role == Role::Conductor
            &&& Some(j.net) == r.net
            &&& j.outline == r.shape
            &&& j.obstacles.contains(o) <==> exists|i: int|
                0 <= i < copper.len() && (#[trigger] copper[i]).0 == r.layer && copper[i].1.net
                    != r.net && o == shape::inflate(copper[i].1.feature.shape, clr)
        }),
{
    let net = r.net->0;
    obstacles_are_foreign(copper, copper.len(), r.layer, net, clr, o);
}

/// What is grown by a clearance covers all that is nearer to it than that: it has the same
/// skeleton, and a radius larger by the clearance.
pub proof fn growing_adds_to_the_radius(s: ShapeV, clr: int, p: Point, q: Point)
    requires
        !(s is Area),
        clr >= 0,
        shape::radius_of(s) >= 0,
        shape::radius_of(s) + clr <= i64::MAX,
    ensures
        shape::radius_of(shape::inflate(s, clr)) == shape::radius_of(s) + clr,
        gap::drawn(shape::inflate(s, clr), p, q) == gap::drawn(s, p, q),
{
    assert(shape::skeleton(shape::inflate(s, clr)) == shape::skeleton(s));
}

// ---------------------------------------------------------------------------
// Nets and pins.
// ---------------------------------------------------------------------------

/// The net lists the pin among its members.
pub open spec fn is_member(nl: NetlistV, k: int, pr: PinRefV) -> bool {
    exists|i: int| 0 <= i < nl[k].1.len() && (#[trigger] nl[k].1[i]).0 == pr
}

proof fn net_so_far(nl: NetlistV, n: nat, pr: PinRefV)
    requires
        n <= nl.len(),
    ensures
        match features::net_of_pin(nl, n, pr) {
            Some(net) => exists|k: int|
                0 <= k < n && is_member(nl, k, pr) && (#[trigger] nl[k]).0 == net && forall|j: int|
                    k < j < n ==> !is_member(nl, j, pr),
            None => forall|k: int| 0 <= k < n ==> !#[trigger] is_member(nl, k, pr),
        },
    decreases n,
{
    if n > 0 {
        net_so_far(nl, (n - 1) as nat, pr);
        assert(features::lists_pin(nl[n - 1].1, pr) == is_member(nl, n - 1, pr));
        if is_member(nl, n - 1, pr) {
            assert(nl[n - 1].0 == nl[n - 1].0);
        } else if features::net_of_pin(nl, n, pr) is Some {
            let net = features::net_of_pin(nl, n, pr)->0;
            let k = choose|k: int|
                0 <= k < n - 1 && is_member(nl, k, pr) && (#[trigger] nl[k]).0 == net && forall|
                    j: int,
                |
                    k < j < n - 1 ==> !is_member(nl, j, pr);
            assert(nl[k].0 == net);
        }
    }
}

/// The copper of a pin is on the net that lists the pin, and on none where no net does. Of
/// several nets it is the last.
pub proof fn pins_are_on_the_net_that_lists_them(nl: NetlistV, pr: PinRefV, k: int)
    ensures
        0 <= k < nl.len() && is_member(nl, k, pr) && (forall|j: int|
            k < j < nl.len() ==> !#[trigger] is_member(nl, j, pr)) ==> features::net_of_pin(
            nl,
            nl.len(),
            pr,
        ) == Some(nl[k].0),
        (forall|j: int| 0 <= j < nl.len() ==> !#[trigger] is_member(nl, j, pr))
            ==> features::net_of_pin(nl, nl.len(), pr) is None,
{
    net_so_far(nl, nl.len(), pr);
    if 0 <= k < nl.len() && is_member(nl, k, pr) && (forall|j: int|
        k < j < nl.len() ==> !#[trigger] is_member(nl, j, pr)) {
        assert(features::net_of_pin(nl, nl.len(), pr) is Some);
        let net = features::net_of_pin(nl, nl.len(), pr)->0;
        let m = choose|m: int|
            0 <= m < nl.len() && is_member(nl, m, pr) && (#[trigger] nl[m]).0 == net && forall|
                j: int,
            |
                m < j < nl.len() ==> !is_member(nl, j, pr);
        if m < k {
            assert(!is_member(nl, k, pr));
        } else if k < m {
            assert(!is_member(nl, m, pr));
        }
    }
}

proof fn points_so_far(
    d: DocV,
    lib: Seq<(Seq<char>, PartV)>,
    su: Seq<SlabV>,
    pins: Seq<(PinRefV, PinRole)>,
    n: nat,
    i: int,
    at: Point,
)
    requires
        0 <= i < n <= pins.len(),
        drc::pin_position(d, lib, pins[i].0) == Some(at),
    ensures
        drc::points_of(d, lib, su, pins, n).contains(
            connectivity::point_of(d, lib, su, at, pins[i].0),
        ),
    decreases n,
{
    let all = drc::points_of(d, lib, su, pins, n);
    let done = drc::points_of(d, lib, su, pins, (n - 1) as nat);
    let x = connectivity::point_of(d, lib, su, at, pins[i].0);
    if i < n - 1 {
        points_so_far(d, lib, su, pins, (n - 1) as nat, i, at);
        let j = choose|j: int| 0 <= j < done.len() && done[j] == x;
        assert(all[j] == x);
    } else {
        assert(all[done.len() as int] == x);
    }
}

/// Every pin of a net whose component and part are known is to be joined, where its component
/// puts it. It is on the slabs on which its pad has copper, and on all where it has none.
pub proof fn every_known_pin_is_to_be_joined(
    d: DocV,
    lib: Seq<(Seq<char>, PartV)>,
    su: Seq<SlabV>,
    pins: Seq<(PinRefV, PinRole)>,
    i: int,
    a: int,
    b: int,
    p: int,
)
    requires
        doc::doc_wf(d),
        names::sorted(lib),
        0 <= i < pins.len(),
        0 <= a < d.components.len(),
        d.components[a].0 == pins[i].0.comp,
        0 <= b < lib.len(),
        lib[b].0 == d.components[a].1.part,
        0 <= p < lib[b].1.pins.len(),
        lib[b].1.pins[p].number == pins[i].0.pin,
        forall|j: int| 0 <= j < p ==> (#[trigger] lib[b].1.pins[j]).number != pins[i].0.pin,
        !pins[i].0.pin.contains('.'),
    ensures
        exists|x: PinPointV| #[trigger]
            drc::points_of(d, lib, su, pins, pins.len()).contains(x) && x.at == geometry::placed(
                d.components[a].1,
                lib[b].1.pins[p].offset,
            ) && is_where_its_pad_is(x, lib[b].1.pins[p], d.components[a].1, su),
{
    let pr = pins[i].0;
    let c = d.components[a].1;
    let def = lib[b].1;
    names::has_is_membership(d.components, pr.comp);
    names::has_is_membership(lib, c.part);
    placement::pins_lie_where_their_part_puts_them(def, pr.pin, p);
    let at = geometry::placed(c, def.pins[p].offset);
    assert(drc::pin_position(d, lib, pr) == Some(at));
    points_so_far(d, lib, su, pins, pins.len(), i, at);
    let x = connectivity::point_of(d, lib, su, at, pr);
    part::pin_index_is_first(def.pins, pr.pin);
    let q = part::pin_index(def.pins, pr.pin);
    if q < p {
        assert(def.pins[q].number != pr.pin);
    }
    assert(connectivity::pin_of(d, lib, pr) == Some((c, def.pins[p])));
    assert(is_where_its_pad_is(x, def.pins[p], c, su)) by {
        let fs = geometry::pad_features_of(def.pins[p], c, su);
        let cu = stackup::copper_of(su);
        assert forall|n: Seq<char>| x.slabs.contains(n) implies #[trigger] has_pad_on(
            def.pins[p],
            c,
            su,
            n,
        ) by {
            let k = choose|k: int|
                0 <= k < fs.len() && #[trigger] connectivity::conductor_name(fs[k], cu) == Some(n);
            layer::z_index_is_first(cu, fs[k].z);
            assert(fs.contains(fs[k]) && cu[layer::z_index(cu, fs[k].z)].name == n);
        }
        assert forall|n: Seq<char>| #[trigger] has_pad_on(def.pins[p], c, su, n)
            && contact::heights_differ(cu) implies x.slabs.contains(n) by {
            let (f, k) = choose|f: FeatureV, k: int|
                #[trigger] fs.contains(f) && f.role == Role::Conductor && 0 <= k < cu.len() && f.z
                    == (#[trigger] cu[k]).z && cu[k].name == n;
            contact::height_is_index(cu, k);
            let j = choose|j: int| 0 <= j < fs.len() && fs[j] == f;
            assert(connectivity::conductor_name(fs[j], cu) == Some(n));
        }
    }
}

/// The pad of a placed pin has copper on the slab of that name.
pub open spec fn has_pad_on(pin: PinV, c: ComponentV, su: Seq<SlabV>, name: Seq<char>) -> bool {
    exists|f: FeatureV, k: int|
        #[trigger] geometry::pad_features_of(pin, c, su).contains(f) && f.role == Role::Conductor
            && 0 <= k < stackup::copper_of(su).len() && f.z == (#[trigger] stackup::copper_of(
            su,
        )[k]).z && stackup::copper_of(su)[k].name == name
}

/// The point is on the slabs on which the pad has copper, or on all where it has none.
pub open spec fn is_where_its_pad_is(
    x: PinPointV,
    pin: PinV,
    c: ComponentV,
    su: Seq<SlabV>,
) -> bool {
    &&& forall|n: Seq<char>| x.slabs.contains(n) ==> #[trigger] has_pad_on(pin, c, su, n)
    &&& forall|n: Seq<char>| #[trigger]
        has_pad_on(pin, c, su, n) && contact::heights_differ(stackup::copper_of(su))
            ==> x.slabs.contains(n)
    &&& x.all_layers <==> x.slabs =~= Set::empty()
}

} // verus!
