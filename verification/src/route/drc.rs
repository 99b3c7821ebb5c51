//! The design-rule check over routed copper: widths, clearances, keep-outs, the board
//! edge, and whether every net is fully routed.

use super::connectivity;
use super::connectivity::{
    pin_islands, pin_point, Copper, NetCopper, NetPins, Netlist, NetlistV, PinPoint, PinPointV,
};
use super::features;
use super::features::{feature_slab, world_features, SourceGeometry, SourceV};
use super::incidence;
use super::layer;
use super::layer::{Trace, TraceV, Via, ViaV};
use super::rules;
use super::rules::{add_violation, DesignRules, Violation, ViolationV};
use super::union_find;
use crate::coord::{Nm, Point};
use crate::doc;
use crate::doc::{Doc, DocV, PinRef, PinRefV};
use crate::geom::feature;
use crate::geom::feature::{NetFeature, NetFeatureV};
use crate::geom::polygon::Region;
use crate::geom::shape;
use crate::geom::shape::{Shape2D, ShapeV};
use crate::geom::stackup;
use crate::geom::stackup::{KeepoutKind, Role, Slab, SlabV, Stackup};
use crate::id::{NetId, TraceId};
use crate::names;
use crate::names::{Duplicate, NameMap};
use crate::numbered;
use crate::part;
use crate::part::geometry;
use crate::part::geometry::pin_world;
use crate::part::{PartLib, PartV, PinRole};
use crate::text;
use crate::text::str_eq;
use vstd::prelude::*;

verus! {

// ---------------------------------------------------------------------------
// The faults.
// ---------------------------------------------------------------------------

/// A netted conductor on a copper slab: the slab's name, whether it is a pour, and its
/// net.
pub open spec fn conductor(f: NetFeatureV, cu: Seq<SlabV>) -> Option<
    (Seq<char>, bool, Seq<char>),
> {
    match (f.net, connectivity::conductor_name(f.feature, cu)) {
        (Some(net), Some(layer)) => Some((layer, f.feature.shape is Area, net)),
        _ => None,
    }
}

/// The clearance violation of two nets on a slab; the nets are put in order.
pub open spec fn clearance_of(a: Seq<char>, b: Seq<char>, layer: Seq<char>) -> ViolationV {
    if text::lex_lt(b, a) {
        ViolationV::Clearance { a: b, b: a, layer }
    } else {
        ViolationV::Clearance { a, b, layer }
    }
}

/// A trace is narrower than the rule.
pub open spec fn narrow_at(d: DocV, min: Nm, i: int, v: ViolationV) -> bool {
    d.traces[i].1.width < min && v == (ViolationV::MinWidth {
        trace: d.traces[i].0,
        width: d.traces[i].1.width,
    })
}

/// Copper of two nets is closer than the rule: both solid, or both pours. A pour is cut
/// back around solid copper by the same rule when it is filled.
pub open spec fn close_at(
    w: Seq<NetFeatureV>,
    cu: Seq<SlabV>,
    clr: Nm,
    i: int,
    j: int,
    v: ViolationV,
) -> bool {
    match (conductor(w[i], cu), conductor(w[j], cu)) {
        (Some((la, pa, na)), Some((_, pb, nb))) => na != nb && pa == pb && !feature::clear_of(
            w[i].feature,
            w[j].feature,
            clr as int,
        ) && v == clearance_of(na, nb, la),
        _ => false,
    }
}

/// The keep-out kinds that copper must respect.
pub open spec fn bars_copper(k: KeepoutKind) -> bool {
    k == KeepoutKind::Copper || k == KeepoutKind::Route
}

/// Copper reaches into a keep-out.
pub open spec fn intrudes_at(
    w: Seq<NetFeatureV>,
    cu: Seq<SlabV>,
    clr: Nm,
    i: int,
    j: int,
    v: ViolationV,
) -> bool {
    match (conductor(w[i], cu), w[j].feature.role) {
        (Some((_, _, net)), Role::Keepout(kind)) => bars_copper(kind) && !feature::outside_of(
            w[i].feature,
            w[j].feature,
            clr as int,
        ) && v == (ViolationV::Keepout { net, kind }),
        _ => false,
    }
}

/// The feature is the board itself.
pub open spec fn is_board(f: NetFeatureV) -> bool {
    f.feature.role == Role::Substrate && f.feature.shape is Area
}

/// There is a board.
pub open spec fn has_board(w: Seq<NetFeatureV>) -> bool {
    exists|i: int| 0 <= i < w.len() && #[trigger] is_board(w[i])
}

/// The solid copper among the first `k` features, grown by the edge rule: each with its
/// position.
pub open spec fn edge_jobs_of(w: Seq<NetFeatureV>, k: nat, cu: Seq<SlabV>, edge: Nm) -> Seq<
    (int, ShapeV),
>
    decreases k,
{
    if k == 0 {
        Seq::empty()
    } else {
        let done = edge_jobs_of(w, (k - 1) as nat, cu, edge);
        match conductor(w[k - 1], cu) {
            Some((_, false, _)) => done.push(
                (k - 1, shape::inflate(w[k - 1].feature.shape, edge as int)),
            ),
            _ => done,
        }
    }
}

/// Grown copper spills over the board.
pub open spec fn spills_at(
    w: Seq<NetFeatureV>,
    cu: Seq<SlabV>,
    edge: Nm,
    spills: Seq<bool>,
    m: int,
    v: ViolationV,
) -> bool {
    let i = edge_jobs_of(w, w.len(), cu, edge)[m].0;
    has_board(w) && spills[m] && match conductor(w[i], cu) {
        Some((_, _, net)) => v == (ViolationV::EdgeClearance { net }),
        None => false,
    }
}

/// Where the first `k` pins are, with the slabs of their pads; a pin that resolves to no
/// position is passed over.
pub open spec fn points_of(
    d: DocV,
    lib: Seq<(Seq<char>, PartV)>,
    su: Seq<SlabV>,
    pins: Seq<(PinRefV, PinRole)>,
    k: nat,
) -> Seq<PinPointV>
    decreases k,
{
    if k == 0 {
        Seq::empty()
    } else {
        let done = points_of(d, lib, su, pins, (k - 1) as nat);
        match pin_position(d, lib, pins[k - 1].0) {
            Some(at) => done.push(connectivity::point_of(d, lib, su, at, pins[k - 1].0)),
            None => done,
        }
    }
}

/// The world position of a pin, where its component, part and offset are known.
pub open spec fn pin_position(d: DocV, lib: Seq<(Seq<char>, PartV)>, pr: PinRefV) -> Option<
    Point,
> {
    match names::lookup(d.components, pr.comp) {
        Some(c) => match names::lookup(lib, c.part) {
            Some(def) => match part::offset_of(def, pr.pin) {
                Some(p) => Some(geometry::placed(c, p)),
                None => None,
            },
            None => None,
        },
        None => None,
    }
}

/// The pin can be placed, and so can its pad.
pub open spec fn position_ready(d: DocV, lib: Seq<(Seq<char>, PartV)>, pr: PinRefV) -> bool {
    &&& connectivity::pin_ready(d, lib, pr)
    &&& match names::lookup(d.components, pr.comp) {
        Some(c) => match names::lookup(lib, c.part) {
            Some(def) => match part::offset_of(def, pr.pin) {
                Some(p) => geometry::placeable(c, p),
                None => true,
            },
            None => true,
        },
        None => true,
    }
}

/// The traces of a net among the first `k`.
pub open spec fn traces_of(d: DocV, net: Seq<char>, k: nat) -> Seq<TraceV>
    decreases k,
{
    if k == 0 {
        Seq::empty()
    } else if d.traces[k - 1].1.net == net {
        traces_of(d, net, (k - 1) as nat).push(d.traces[k - 1].1)
    } else {
        traces_of(d, net, (k - 1) as nat)
    }
}

/// The vias of a net among the first `k`.
pub open spec fn vias_of(d: DocV, net: Seq<char>, k: nat) -> Seq<ViaV>
    decreases k,
{
    if k == 0 {
        Seq::empty()
    } else if d.vias[k - 1].1.net == net {
        vias_of(d, net, (k - 1) as nat).push(d.vias[k - 1].1)
    } else {
        vias_of(d, net, (k - 1) as nat)
    }
}

/// Pour islands by net, as values.
pub type IslandsV = Seq<Seq<(Seq<char>, Seq<Seq<Point>>)>>;

/// The copper of a net.
pub open spec fn net_copper(
    d: DocV,
    lib: Seq<(Seq<char>, PartV)>,
    nl: NetlistV,
    su: Seq<SlabV>,
    islands: IslandsV,
    k: int,
) -> NetCopper {
    NetCopper {
        pins: points_of(d, lib, su, nl[k].1, nl[k].1.len()),
        traces: traces_of(d, nl[k].0, d.traces.len()),
        vias: vias_of(d, nl[k].0, d.vias.len()),
        islands: islands[k],
    }
}

/// A net of two pins or more whose pins its copper leaves in more than one group.
pub open spec fn unrouted_at(
    d: DocV,
    lib: Seq<(Seq<char>, PartV)>,
    nl: NetlistV,
    su: Seq<SlabV>,
    tol: Nm,
    islands: IslandsV,
    k: int,
    v: ViolationV,
) -> bool {
    let n = connectivity::island_count(
        net_copper(d, lib, nl, su, islands, k),
        stackup::copper_of(su),
        tol as int,
    );
    nl[k].1.len() >= 2 && n > 1 && v == (ViolationV::Unrouted { net: nl[k].0, islands: n as usize })
}

/// Everything a check looks at, as values.
pub struct Board {
    pub doc: DocV,
    pub lib: Seq<(Seq<char>, PartV)>,
    pub netlist: NetlistV,
    pub rules: DesignRules,
    pub su: Seq<SlabV>,
    pub world: Seq<NetFeatureV>,
    pub spills: Seq<bool>,
    pub islands: IslandsV,
}

/// Some trace is too narrow.
pub open spec fn any_narrow(d: DocV, min: Nm, v: ViolationV) -> bool {
    exists|i: int| 0 <= i < d.traces.len() && #[trigger] narrow_at(d, min, i, v)
}

/// Some copper of two nets is too close.
pub open spec fn any_close(w: Seq<NetFeatureV>, cu: Seq<SlabV>, clr: Nm, v: ViolationV) -> bool {
    exists|i: int, j: int| 0 <= i < j < w.len() && #[trigger] close_at(w, cu, clr, i, j, v)
}

/// Some copper reaches into a keep-out.
pub open spec fn any_intrudes(
    w: Seq<NetFeatureV>,
    cu: Seq<SlabV>,
    clr: Nm,
    v: ViolationV,
) -> bool {
    exists|i: int, j: int|
        0 <= i < w.len() && 0 <= j < w.len() && #[trigger] intrudes_at(w, cu, clr, i, j, v)
}

/// Some copper spills over the board.
pub open spec fn any_spills(
    w: Seq<NetFeatureV>,
    cu: Seq<SlabV>,
    edge: Nm,
    spills: Seq<bool>,
    v: ViolationV,
) -> bool {
    exists|m: int| 0 <= m < spills.len() && #[trigger] spills_at(w, cu, edge, spills, m, v)
}

/// Some net is not fully routed.
pub open spec fn any_unrouted(b: Board, v: ViolationV) -> bool {
    exists|k: int|
        0 <= k < b.netlist.len() && #[trigger] unrouted_at(
            b.doc,
            b.lib,
            b.netlist,
            b.su,
            b.rules.touch_tol,
            b.islands,
            k,
            v,
        )
}

/// The violations of a board.
pub open spec fn is_violation(b: Board, v: ViolationV) -> bool {
    let cu = stackup::copper_of(b.su);
    ||| any_narrow(b.doc, b.rules.min_trace_width, v)
    ||| any_close(b.world, cu, b.rules.min_clearance, v)
    ||| any_intrudes(b.world, cu, b.rules.keepout_clearance, v)
    ||| any_spills(b.world, cu, b.rules.edge_clearance, b.spills, v)
    ||| any_unrouted(b, v)
}

/// Two features that are compared can be compared.
pub open spec fn pair_ready(a: NetFeatureV, b: NetFeatureV, clr: Nm) -> bool {
    a.feature.z.meets(b.feature.z) ==> feature::comparable(a.feature, b.feature, clr as int)
}

/// The features can be checked against the rules.
pub open spec fn world_checkable(w: Seq<NetFeatureV>, cu: Seq<SlabV>, rules: DesignRules) -> bool {
    &&& forall|i: int, j: int|
        0 <= i < j < w.len() && conductor(w[i], cu) is Some && conductor(w[j], cu) is Some
            ==> #[trigger] pair_ready(w[i], w[j], rules.min_clearance)
    &&& forall|i: int, j: int|
        0 <= i < w.len() && 0 <= j < w.len() && conductor(w[i], cu) is Some
            && w[j].feature.role is Keepout ==> #[trigger] pair_ready(
            w[i],
            w[j],
            rules.keepout_clearance,
        )
}

/// The nets can be traced.
pub open spec fn nets_checkable(b: Board) -> bool {
    &&& incidence::tol_ok(b.rules.touch_tol as int)
    &&& forall|k: int| 0 <= k < b.netlist.len() ==> #[trigger] net_checkable(b, k)
}

/// The net can be traced.
pub open spec fn net_checkable(b: Board, k: int) -> bool {
    let n = net_copper(b.doc, b.lib, b.netlist, b.su, b.islands, k);
    &&& forall|i: int|
        0 <= i < b.netlist[k].1.len() ==> position_ready(
            b.doc,
            b.lib,
            (#[trigger] b.netlist[k].1[i]).0,
        )
    &&& connectivity::copper_ready(n)
    &&& connectivity::node_count(n) <= usize::MAX
}

/// The board can be checked: one answer for each grown piece of copper, and one list of
/// islands for each net.
pub open spec fn checkable(b: Board) -> bool {
    &&& world_checkable(b.world, stackup::copper_of(b.su), b.rules)
    &&& b.spills.len() == edge_jobs_of(
        b.world,
        b.world.len(),
        stackup::copper_of(b.su),
        b.rules.edge_clearance,
    ).len()
    &&& b.islands.len() == b.netlist.len()
    &&& nets_checkable(b)
}

// ---------------------------------------------------------------------------
// What the region kernel is asked.
// ---------------------------------------------------------------------------

/// What is known of a feature as a conductor.
fn conductor_info(nf: &NetFeature, cu: &Vec<&Slab>) -> (r: Option<(String, bool)>)
    ensures
        match (r, conductor(nf@, stackup::slab_refs(cu@))) {
            (Some((l, p)), Some((a, b, _))) => l@ == a && p == b && nf.net is Some,
            (None, None) => true,
            _ => false,
        },
{
    if nf.net.is_none() {
        return None;
    }
    if nf.feature.role != Role::Conductor {
        return None;
    }
    match feature_slab(cu, &nf.feature) {
        Some(layer) => {
            let (s, _z) = nf.feature.prism_parts();
            Some((layer, s.is_area()))
        },
        None => None,
    }
}

/// The board region: the first substrate area.
pub fn board_region(world: &Vec<NetFeature>) -> (r: Option<&Region>)
    ensures
        match r {
            Some(g) => exists|i: int|
                {
                    &&& 0 <= i < world.len()
                    &&& #[trigger] is_board(feature::net_feature_views(world@)[i])
                    &&& feature::net_feature_views(world@)[i].feature.shape == (ShapeV::Area {
                        rings: g@,
                    })
                    &&& forall|j: int|
                        0 <= j < i ==> !is_board(
                            #[trigger] feature::net_feature_views(world@)[j],
                        )
                },
            None => !has_board(feature::net_feature_views(world@)),
        },
{
    let ghost w = feature::net_feature_views(world@);
    let mut i: usize = 0;
    while i < world.len()
        invariant
            i <= world.len(),
            w == feature::net_feature_views(world@),
            forall|j: int| 0 <= j < i ==> !is_board(#[trigger] w[j]),
        decreases world.len() - i,
    {
        let nf = &world[i];
        assert(w[i as int] == nf@);
        if nf.feature.role == Role::Substrate {
            let (s, _z) = nf.feature.prism_parts();
            if let Some(g) = s.region() {
                assert(is_board(w[i as int]));
                return Some(g);
            }
        }
        i += 1;
    }
    None
}

/// Grown copper as values.
pub open spec fn edge_views(v: Seq<(usize, Shape2D)>) -> Seq<(int, ShapeV)> {
    Seq::new(v.len(), |i: int| (v[i].0 as int, v[i].1@))
}

/// The solid copper of a world grown by the edge rule, each piece with its position. The
/// check asks of each whether it spills over the board.
pub fn edge_jobs(world: &Vec<NetFeature>, su: &Stackup, rules: &DesignRules) -> (r: Vec<
    (usize, Shape2D),
>)
    requires
        forall|i: int|
            0 <= i < world.len() ==> i64::MIN <= shape::radius_of(
                (#[trigger] feature::net_feature_views(world@)[i]).feature.shape,
            ) + rules.edge_clearance <= i64::MAX,
    ensures
        edge_views(r@) == edge_jobs_of(
            feature::net_feature_views(world@),
            world@.len(),
            stackup::copper_of(su@),
            rules.edge_clearance,
        ),
{
    let cu = su.copper_slabs();
    let ghost w = feature::net_feature_views(world@);
    let ghost slabs = stackup::slab_refs(cu@);
    let mut out: Vec<(usize, Shape2D)> = Vec::new();
    let mut i: usize = 0;
    assert(edge_views(out@) =~= Seq::empty());
    while i < world.len()
        invariant
            i <= world.len(),
            w == feature::net_feature_views(world@),
            slabs == stackup::slab_refs(cu@),
            forall|k: int|
                0 <= k < w.len() ==> i64::MIN <= shape::radius_of((#[trigger] w[k]).feature.shape)
                    + rules.edge_clearance <= i64::MAX,
            edge_views(out@) == edge_jobs_of(w, i as nat, slabs, rules.edge_clearance),
        decreases world.len() - i,
    {
        let nf = &world[i];
        assert(w[i as int] == nf@);
        if let Some((_l, pour)) = conductor_info(nf, &cu) {
            if !pour {
                let (s, _z) = nf.feature.prism_parts();
                let g = s.inflated(rules.edge_clearance);
                let ghost done = edge_views(out@);
                let ghost one = (i as int, g@);
                out.push((i, g));
                assert(edge_views(out@) =~= done.push(one));
            }
        }
        i += 1;
    }
    out
}

/// The fills of a net on one slab.
#[derive(Debug, PartialEq, Eq)]
pub struct Fills {
    pub regions: Vec<Region>,
}

impl View for Fills {
    type V = Seq<Seq<Seq<Point>>>;

    open spec fn view(&self) -> Seq<Seq<Seq<Point>>> {
        features::fill_views(self.regions@)
    }
}

/// The pour fills of a net among the first `k` features, by slab.
pub open spec fn fills_of(w: Seq<NetFeatureV>, k: nat, cu: Seq<SlabV>, net: Seq<char>) -> Seq<
    (Seq<char>, Seq<Seq<Seq<Point>>>),
>
    decreases k,
{
    if k == 0 {
        Seq::empty()
    } else {
        let done = fills_of(w, (k - 1) as nat, cu, net);
        match features::pour_of(w[k - 1], cu) {
            Some(p) if p.net == net => {
                let there = match names::lookup(done, p.layer) {
                    Some(v) => v,
                    None => Seq::empty(),
                };
                names::put(done, p.layer, there.push(p.fill))
            },
            _ => done,
        }
    }
}

/// The pour fills of a net, by slab. The check asks for the islands of their union on each
/// slab.
pub fn island_jobs(world: &Vec<NetFeature>, su: &Stackup, net: &str) -> (r: NameMap<Fills>)
    ensures
        r@ == fills_of(
            feature::net_feature_views(world@),
            world@.len(),
            stackup::copper_of(su@),
            net@,
        ),
        names::sorted(r@),
{
    let cu = su.copper_slabs();
    let ghost w = feature::net_feature_views(world@);
    let ghost slabs = stackup::slab_refs(cu@);
    let mut out: NameMap<Fills> = NameMap::new();
    let mut i: usize = 0;
    while i < world.len()
        invariant
            i <= world.len(),
            w == feature::net_feature_views(world@),
            slabs == stackup::slab_refs(cu@),
            names::sorted(out@),
            out@ == fills_of(w, i as nat, slabs, net@),
        decreases world.len() - i,
    {
        let nf = &world[i];
        assert(w[i as int] == nf@);
        if let Some((layer, _p)) = conductor_info(nf, &cu) {
            let own = match &nf.net {
                Some(n) => str_eq(n.as_str(), net),
                None => false,
            };
            let (s, _z) = nf.feature.prism_parts();
            if let Some(g) = s.region() {
                if own {
                    let mut regions: Vec<Region> = Vec::new();
                    assert(features::fill_views(regions@) =~= Seq::empty());
                    if let Some(there) = out.get(layer.as_str()) {
                        regions = clone_regions(&there.regions);
                    }
                    let ghost before = features::fill_views(regions@);
                    regions.push(g.clone());
                    assert(features::fill_views(regions@) =~= before.push(g@));
                    out.insert(layer, Fills { regions });
                }
            }
        }
        i += 1;
    }
    out
}

fn clone_regions(v: &Vec<Region>) -> (r: Vec<Region>)
    ensures
        features::fill_views(r@) == features::fill_views(v@),
{
    let mut out: Vec<Region> = Vec::new();
    let mut i: usize = 0;
    while i < v.len()
        invariant
            i <= v.len(),
            out.len() == i,
            forall|k: int| 0 <= k < i ==> (#[trigger] out@[k])@ == v@[k]@,
        decreases v.len() - i,
    {
        out.push(v[i].clone());
        i += 1;
    }
    assert(features::fill_views(out@) =~= features::fill_views(v@));
    out
}

// ---------------------------------------------------------------------------
// The check.
// ---------------------------------------------------------------------------

/// Is the violation in the list?
spec fn holds(out: Seq<Violation>, v: ViolationV) -> bool {
    rules::violation_views(out).contains(v)
}

fn clearance(a: &NetId, b: &NetId, layer: &String) -> (r: Violation)
    ensures
        r@ == clearance_of(a@, b@, layer@),
{
    if b.before(a) {
        Violation::Clearance { a: b.duplicate(), b: a.duplicate(), layer: layer.clone() }
    } else {
        Violation::Clearance { a: a.duplicate(), b: b.duplicate(), layer: layer.clone() }
    }
}

fn check_widths(out: &mut Vec<Violation>, doc: &Doc, min: Nm)
    requires
        rules::canonical(rules::violation_views(old(out)@)),
    ensures
        rules::canonical(rules::violation_views(final(out)@)),
        forall|v: ViolationV| #[trigger]
            holds(final(out)@, v) <==> holds(old(out)@, v) || any_narrow(doc@, min, v),
{
    let ghost was = out@;
    let ghost d = doc@;
    let mut i: usize = 0;
    while i < doc.traces.len()
        invariant
            i <= doc@.traces.len(),
            d == doc@,
            rules::canonical(rules::violation_views(out@)),
            forall|v: ViolationV| #[trigger]
                holds(out@, v) <==> holds(was, v) || exists|k: int|
                    0 <= k < i && #[trigger] narrow_at(d, min, k, v),
        decreases doc@.traces.len() - i,
    {
        let tid = doc.traces.key_at(i);
        let t = doc.traces.value_at(i);
        assert(d.traces[i as int] == (tid, t@));
        let ghost seen = out@;
        if t.width < min {
            add_violation(out, Violation::MinWidth { trace: tid, width: t.width });
        }
        assert forall|v: ViolationV| #[trigger] holds(out@, v) <==> holds(was, v) || exists|k: int|
            0 <= k < i + 1 && #[trigger] narrow_at(d, min, k, v) by {
            let own = narrow_at(d, min, i as int, v);
            assert(holds(out@, v) <==> holds(seen, v) || own);
        }
        i += 1;
    }
}

/// The facts of every feature as a conductor.
spec fn infos_match(
    infos: Seq<Option<(String, bool)>>,
    w: Seq<NetFeatureV>,
    cu: Seq<SlabV>,
) -> bool {
    &&& infos.len() == w.len()
    &&& forall|i: int|
        0 <= i < w.len() ==> match (#[trigger] infos[i], conductor(w[i], cu)) {
            (Some((l, p)), Some((a, b, _))) => l@ == a && p == b,
            (None, None) => true,
            _ => false,
        }
}

fn gather(world: &Vec<NetFeature>, cu: &Vec<&Slab>) -> (r: Vec<Option<(String, bool)>>)
    ensures
        infos_match(r@, feature::net_feature_views(world@), stackup::slab_refs(cu@)),
{
    let ghost w = feature::net_feature_views(world@);
    let ghost slabs = stackup::slab_refs(cu@);
    let mut out: Vec<Option<(String, bool)>> = Vec::new();
    let mut i: usize = 0;
    while i < world.len()
        invariant
            i <= world.len(),
            w == feature::net_feature_views(world@),
            slabs == stackup::slab_refs(cu@),
            out.len() == i,
            forall|k: int|
                0 <= k < i ==> match (#[trigger] out@[k], conductor(w[k], slabs)) {
                    (Some((l, p)), Some((a, b, _))) => l@ == a && p == b,
                    (None, None) => true,
                    _ => false,
                },
        decreases world.len() - i,
    {
        assert(w[i as int] == world@[i as int]@);
        out.push(conductor_info(&world[i], cu));
        i += 1;
    }
    out
}

/// The clearance violation of a pair, if it is one.
fn check_pair(
    world: &Vec<NetFeature>,
    infos: &Vec<Option<(String, bool)>>,
    clr: Nm,
    i: usize,
    j: usize,
    Ghost(cu): Ghost<Seq<SlabV>>,
) -> (r: Option<Violation>)
    requires
        i < j < world.len(),
        infos_match(infos@, feature::net_feature_views(world@), cu),
        conductor(feature::net_feature_views(world@)[i as int], cu) is Some && conductor(
            feature::net_feature_views(world@)[j as int],
            cu,
        ) is Some ==> pair_ready(
            feature::net_feature_views(world@)[i as int],
            feature::net_feature_views(world@)[j as int],
            clr,
        ),
    ensures
        forall|v: ViolationV| #[trigger]
            close_at(
                feature::net_feature_views(world@),
                cu,
                clr,
                i as int,
                j as int,
                v,
            ) <==> r is Some && r->0@ == v,
{
    let ghost w = feature::net_feature_views(world@);
    let a = &world[i];
    let b = &world[j];
    assert(w[i as int] == a@ && w[j as int] == b@);
    let (la, pa) = match &infos[i] {
        Some((l, p)) => (l, *p),
        None => {
            return None;
        },
    };
    let pb = match &infos[j] {
        Some((_l, p)) => *p,
        None => {
            return None;
        },
    };
    match (&a.net, &b.net) {
        (Some(na), Some(nb)) => {
            if na.same(nb) || pa != pb {
                return None;
            }
            if a.feature.clears(&b.feature, clr) {
                return None;
            }
            Some(clearance(na, nb, la))
        },
        _ => None,
    }
}

/// Add a violation where there is one.
fn add_some(out: &mut Vec<Violation>, v: Option<Violation>)
    requires
        rules::canonical(rules::violation_views(old(out)@)),
    ensures
        rules::canonical(rules::violation_views(final(out)@)),
        forall|x: ViolationV| #[trigger]
            holds(final(out)@, x) <==> holds(old(out)@, x) || (v is Some && v->0@ == x),
{
    let ghost was = out@;
    if let Some(v) = v {
        let ghost one = v@;
        add_violation(out, v);
        assert forall|x: ViolationV| #[trigger] holds(out@, x) <==> holds(was, x) || one == x by {
            assert(rules::violation_views(out@).contains(x) <==> rules::violation_views(
                was,
            ).contains(x) || x == one);
        }
    }
}

/// The pairs up to `(a, b)` hold a clearance violation.
spec fn close_before(
    w: Seq<NetFeatureV>,
    cu: Seq<SlabV>,
    clr: Nm,
    a: int,
    b: int,
    v: ViolationV,
) -> bool {
    exists|i: int, j: int|
        0 <= i < j < w.len() && (i < a || (i == a && j < b)) && #[trigger] close_at(
            w,
            cu,
            clr,
            i,
            j,
            v,
        )
}

fn check_clearances(
    out: &mut Vec<Violation>,
    world: &Vec<NetFeature>,
    infos: &Vec<Option<(String, bool)>>,
    rules: &DesignRules,
    Ghost(cu): Ghost<Seq<SlabV>>,
)
    requires
        rules::canonical(rules::violation_views(old(out)@)),
        infos_match(infos@, feature::net_feature_views(world@), cu),
        world_checkable(feature::net_feature_views(world@), cu, *rules),
    ensures
        rules::canonical(rules::violation_views(final(out)@)),
        forall|v: ViolationV| #[trigger]
            holds(final(out)@, v) <==> holds(old(out)@, v) || any_close(
                feature::net_feature_views(world@),
                cu,
                rules.min_clearance,
                v,
            ),
{
    let ghost was = out@;
    let ghost w = feature::net_feature_views(world@);
    let ghost clr = rules.min_clearance;
    let n = world.len();
    let mut a: usize = 0;
    while a < n
        invariant
            a <= n,
            n == world.len(),
            w == feature::net_feature_views(world@),
            clr == rules.min_clearance,
            infos_match(infos@, w, cu),
            world_checkable(w, cu, *rules),
            rules::canonical(rules::violation_views(out@)),
            forall|v: ViolationV| #[trigger]
                holds(out@, v) <==> holds(was, v) || close_before(w, cu, clr, a as int, 0, v),
        decreases n - a,
    {
        let mut b: usize = a + 1;
        assert forall|v: ViolationV| #[trigger] holds(out@, v) <==> holds(was, v) || close_before(
            w,
            cu,
            clr,
            a as int,
            b as int,
            v,
        ) by {
            assert(close_before(w, cu, clr, a as int, 0, v) <==> close_before(
                w,
                cu,
                clr,
                a as int,
                b as int,
                v,
            ));
        }
        while b < n
            invariant
                a < b <= n,
                n == world.len(),
                w == feature::net_feature_views(world@),
                clr == rules.min_clearance,
                infos_match(infos@, w, cu),
                world_checkable(w, cu, *rules),
                rules::canonical(rules::violation_views(out@)),
                forall|v: ViolationV| #[trigger]
                    holds(out@, v) <==> holds(was, v) || close_before(
                        w,
                        cu,
                        clr,
                        a as int,
                        b as int,
                        v,
                    ),
            decreases n - b,
        {
            let ghost seen = out@;
            proof {
                if conductor(w[a as int], cu) is Some && conductor(w[b as int], cu) is Some {
                    assert(pair_ready(w[a as int], w[b as int], clr));
                }
            }
            let hit = check_pair(world, infos, rules.min_clearance, a, b, Ghost(cu));
            let ghost own = hit;
            add_some(out, hit);
            assert forall|v: ViolationV| #[trigger] holds(out@, v) <==> holds(was, v)
                || close_before(w, cu, clr, a as int, b + 1, v) by {
                assert(holds(out@, v) <==> holds(seen, v) || close_at(
                    w,
                    cu,
                    clr,
                    a as int,
                    b as int,
                    v,
                ));
                if close_before(w, cu, clr, a as int, b + 1, v) {
                    let (i, j) = choose|i: int, j: int|
                        0 <= i < j < w.len() && (i < a || (i == a && j < b + 1))
                            && #[trigger] close_at(w, cu, clr, i, j, v);
                    if !(i == a && j == b) {
                        assert(close_before(w, cu, clr, a as int, b as int, v));
                    }
                }
                if close_before(w, cu, clr, a as int, b as int, v) {
                    let (i, j) = choose|i: int, j: int|
                        0 <= i < j < w.len() && (i < a || (i == a && j < b))
                            && #[trigger] close_at(w, cu, clr, i, j, v);
                    assert(close_at(w, cu, clr, i, j, v));
                }
            }
            b += 1;
        }
        assert forall|v: ViolationV| #[trigger] holds(out@, v) <==> holds(was, v) || close_before(
            w,
            cu,
            clr,
            a + 1,
            0,
            v,
        ) by {
            if close_before(w, cu, clr, a + 1, 0, v) {
                let (i, j) = choose|i: int, j: int|
                    0 <= i < j < w.len() && (i < a + 1 || (i == a + 1 && j < 0))
                        && #[trigger] close_at(w, cu, clr, i, j, v);
                assert(close_before(w, cu, clr, a as int, b as int, v));
            }
            if close_before(w, cu, clr, a as int, b as int, v) {
                let (i, j) = choose|i: int, j: int|
                    0 <= i < j < w.len() && (i < a || (i == a && j < b)) && #[trigger] close_at(
                        w,
                        cu,
                        clr,
                        i,
                        j,
                        v,
                    );
                assert(close_at(w, cu, clr, i, j, v));
            }
        }
        a += 1;
    }
    assert forall|v: ViolationV| #[trigger] holds(out@, v) <==> holds(was, v) || any_close(
        w,
        cu,
        clr,
        v,
    ) by {
        if any_close(w, cu, clr, v) {
            let (i, j) = choose|i: int, j: int|
                0 <= i < j < w.len() && #[trigger] close_at(w, cu, clr, i, j, v);
            assert(close_before(w, cu, clr, a as int, 0, v));
        }
    }
}

/// The keep-out violation of a pair, if it is one.
fn check_keepout(
    world: &Vec<NetFeature>,
    infos: &Vec<Option<(String, bool)>>,
    clr: Nm,
    i: usize,
    j: usize,
    Ghost(cu): Ghost<Seq<SlabV>>,
) -> (r: Option<Violation>)
    requires
        i < world.len(),
        j < world.len(),
        infos_match(infos@, feature::net_feature_views(world@), cu),
        conductor(feature::net_feature_views(world@)[i as int], cu) is Some
            && feature::net_feature_views(world@)[j as int].feature.role is Keepout ==> pair_ready(
            feature::net_feature_views(world@)[i as int],
            feature::net_feature_views(world@)[j as int],
            clr,
        ),
    ensures
        forall|v: ViolationV| #[trigger]
            intrudes_at(
                feature::net_feature_views(world@),
                cu,
                clr,
                i as int,
                j as int,
                v,
            ) <==> r is Some && r->0@ == v,
{
    let ghost w = feature::net_feature_views(world@);
    let a = &world[i];
    let b = &world[j];
    assert(w[i as int] == a@ && w[j as int] == b@);
    if infos[i].is_none() {
        return None;
    }
    let kind = match b.feature.role {
        Role::Keepout(k) => k,
        _ => {
            return None;
        },
    };
    if !(kind == KeepoutKind::Copper || kind == KeepoutKind::Route) {
        return None;
    }
    match &a.net {
        Some(net) => {
            if a.feature.keeps_out_of(&b.feature, clr) {
                return None;
            }
            Some(Violation::Keepout { net: net.duplicate(), kind })
        },
        None => None,
    }
}

/// The pairs up to `(a, b)` hold a keep-out violation.
spec fn intrudes_before(
    w: Seq<NetFeatureV>,
    cu: Seq<SlabV>,
    clr: Nm,
    a: int,
    b: int,
    v: ViolationV,
) -> bool {
    exists|i: int, j: int|
        0 <= i < w.len() && 0 <= j < w.len() && (i < a || (i == a && j < b))
            && #[trigger] intrudes_at(w, cu, clr, i, j, v)
}

fn check_keepouts(
    out: &mut Vec<Violation>,
    world: &Vec<NetFeature>,
    infos: &Vec<Option<(String, bool)>>,
    rules: &DesignRules,
    Ghost(cu): Ghost<Seq<SlabV>>,
)
    requires
        rules::canonical(rules::violation_views(old(out)@)),
        infos_match(infos@, feature::net_feature_views(world@), cu),
        world_checkable(feature::net_feature_views(world@), cu, *rules),
    ensures
        rules::canonical(rules::violation_views(final(out)@)),
        forall|v: ViolationV| #[trigger]
            holds(final(out)@, v) <==> holds(old(out)@, v) || any_intrudes(
                feature::net_feature_views(world@),
                cu,
                rules.keepout_clearance,
                v,
            ),
{
    let ghost was = out@;
    let ghost w = feature::net_feature_views(world@);
    let ghost clr = rules.keepout_clearance;
    let n = world.len();
    let mut a: usize = 0;
    while a < n
        invariant
            a <= n,
            n == world.len(),
            w == feature::net_feature_views(world@),
            clr == rules.keepout_clearance,
            infos_match(infos@, w, cu),
            world_checkable(w, cu, *rules),
            rules::canonical(rules::violation_views(out@)),
            forall|v: ViolationV| #[trigger]
                holds(out@, v) <==> holds(was, v) || intrudes_before(w, cu, clr, a as int, 0, v),
        decreases n - a,
    {
        let mut b: usize = 0;
        while b < n
            invariant
                a < n,
                b <= n,
                n == world.len(),
                w == feature::net_feature_views(world@),
                clr == rules.keepout_clearance,
                infos_match(infos@, w, cu),
                world_checkable(w, cu, *rules),
                rules::canonical(rules::violation_views(out@)),
                forall|v: ViolationV| #[trigger]
                    holds(out@, v) <==> holds(was, v) || intrudes_before(
                        w,
                        cu,
                        clr,
                        a as int,
                        b as int,
                        v,
                    ),
            decreases n - b,
        {
            let ghost seen = out@;
            proof {
                if conductor(w[a as int], cu) is Some && w[b as int].feature.role is Keepout {
                    assert(pair_ready(w[a as int], w[b as int], clr));
                }
            }
            let hit = check_keepout(world, infos, rules.keepout_clearance, a, b, Ghost(cu));
            add_some(out, hit);
            assert forall|v: ViolationV| #[trigger] holds(out@, v) <==> holds(was, v)
                || intrudes_before(w, cu, clr, a as int, b + 1, v) by {
                assert(holds(out@, v) <==> holds(seen, v) || intrudes_at(
                    w,
                    cu,
                    clr,
                    a as int,
                    b as int,
                    v,
                ));
                if intrudes_before(w, cu, clr, a as int, b + 1, v) {
                    let (i, j) = choose|i: int, j: int|
                        0 <= i < w.len() && 0 <= j < w.len() && (i < a || (i == a && j < b + 1))
                            && #[trigger] intrudes_at(w, cu, clr, i, j, v);
                    if !(i == a && j == b) {
                        assert(intrudes_before(w, cu, clr, a as int, b as int, v));
                    }
                }
                if intrudes_before(w, cu, clr, a as int, b as int, v) {
                    let (i, j) = choose|i: int, j: int|
                        0 <= i < w.len() && 0 <= j < w.len() && (i < a || (i == a && j < b))
                            && #[trigger] intrudes_at(w, cu, clr, i, j, v);
                    assert(intrudes_at(w, cu, clr, i, j, v));
                }
            }
            b += 1;
        }
        assert forall|v: ViolationV| #[trigger] holds(out@, v) <==> holds(was, v)
            || intrudes_before(w, cu, clr, a + 1, 0, v) by {
            if intrudes_before(w, cu, clr, a + 1, 0, v) {
                let (i, j) = choose|i: int, j: int|
                    0 <= i < w.len() && 0 <= j < w.len() && (i < a + 1 || (i == a + 1 && j < 0))
                        && #[trigger] intrudes_at(w, cu, clr, i, j, v);
                assert(intrudes_before(w, cu, clr, a as int, b as int, v));
            }
            if intrudes_before(w, cu, clr, a as int, b as int, v) {
                let (i, j) = choose|i: int, j: int|
                    0 <= i < w.len() && 0 <= j < w.len() && (i < a || (i == a && j < b))
                        && #[trigger] intrudes_at(w, cu, clr, i, j, v);
                assert(intrudes_at(w, cu, clr, i, j, v));
            }
        }
        a += 1;
    }
    assert forall|v: ViolationV| #[trigger] holds(out@, v) <==> holds(was, v) || any_intrudes(
        w,
        cu,
        clr,
        v,
    ) by {
        if any_intrudes(w, cu, clr, v) {
            let (i, j) = choose|i: int, j: int|
                0 <= i < w.len() && 0 <= j < w.len() && #[trigger] intrudes_at(
                    w,
                    cu,
                    clr,
                    i,
                    j,
                    v,
                );
            assert(intrudes_before(w, cu, clr, a as int, 0, v));
        }
    }
}

/// The positions of the solid copper, in order.
fn solid_positions(infos: &Vec<Option<(String, bool)>>, Ghost(w): Ghost<Seq<NetFeatureV>>, Ghost(
    cu,
): Ghost<Seq<SlabV>>, Ghost(edge): Ghost<Nm>) -> (r: Vec<usize>)
    requires
        infos_match(infos@, w, cu),
    ensures
        r.len() == edge_jobs_of(w, w.len(), cu, edge).len(),
        forall|m: int|
            0 <= m < r.len() ==> #[trigger] r@[m] == edge_jobs_of(w, w.len(), cu, edge)[m].0,
        forall|m: int| 0 <= m < r.len() ==> #[trigger] r@[m] < w.len(),
{
    let mut out: Vec<usize> = Vec::new();
    let mut i: usize = 0;
    while i < infos.len()
        invariant
            i <= infos.len(),
            infos_match(infos@, w, cu),
            out.len() == edge_jobs_of(w, i as nat, cu, edge).len(),
            forall|m: int|
                0 <= m < out.len() ==> #[trigger] out@[m] == edge_jobs_of(
                    w,
                    i as nat,
                    cu,
                    edge,
                )[m].0,
            forall|m: int| 0 <= m < out.len() ==> #[trigger] out@[m] < i,
        decreases infos.len() - i,
    {
        if let Some((_l, pour)) = &infos[i] {
            if !*pour {
                out.push(i);
            }
        }
        i += 1;
    }
    out
}

fn check_edges(
    out: &mut Vec<Violation>,
    world: &Vec<NetFeature>,
    infos: &Vec<Option<(String, bool)>>,
    spills: &Vec<bool>,
    Ghost(cu): Ghost<Seq<SlabV>>,
    Ghost(edge): Ghost<Nm>,
)
    requires
        rules::canonical(rules::violation_views(old(out)@)),
        infos_match(infos@, feature::net_feature_views(world@), cu),
        spills.len() == edge_jobs_of(
            feature::net_feature_views(world@),
            world@.len(),
            cu,
            edge,
        ).len(),
    ensures
        rules::canonical(rules::violation_views(final(out)@)),
        forall|v: ViolationV| #[trigger]
            holds(final(out)@, v) <==> holds(old(out)@, v) || any_spills(
                feature::net_feature_views(world@),
                cu,
                edge,
                spills@,
                v,
            ),
{
    let ghost was = out@;
    let ghost w = feature::net_feature_views(world@);
    if board_region(world).is_none() {
        return;
    }
    assert(has_board(w));
    let at = solid_positions(infos, Ghost(w), Ghost(cu), Ghost(edge));
    let mut m: usize = 0;
    while m < spills.len()
        invariant
            m <= spills.len(),
            w == feature::net_feature_views(world@),
            has_board(w),
            infos_match(infos@, w, cu),
            spills.len() == edge_jobs_of(w, w.len(), cu, edge).len(),
            at.len() == spills.len(),
            forall|k: int|
                0 <= k < at.len() ==> #[trigger] at@[k] == edge_jobs_of(w, w.len(), cu, edge)[k].0,
            forall|k: int| 0 <= k < at.len() ==> #[trigger] at@[k] < w.len(),
            rules::canonical(rules::violation_views(out@)),
            forall|v: ViolationV| #[trigger]
                holds(out@, v) <==> holds(was, v) || exists|k: int|
                    0 <= k < m && #[trigger] spills_at(w, cu, edge, spills@, k, v),
        decreases spills.len() - m,
    {
        let ghost seen = out@;
        let i: usize = at[m];
        let nf = &world[i];
        assert(w[i as int] == nf@);
        let mut hit: Option<Violation> = None;
        if spills[m] && infos[i].is_some() {
            if let Some(net) = &nf.net {
                hit = Some(Violation::EdgeClearance { net: net.duplicate() });
            }
        }
        let ghost own = hit;
        add_some(out, hit);
        assert forall|v: ViolationV| #[trigger] holds(out@, v) <==> holds(was, v) || exists|k: int|
            0 <= k < m + 1 && #[trigger] spills_at(w, cu, edge, spills@, k, v) by {
            let here = spills_at(w, cu, edge, spills@, m as int, v);
            assert(here <==> own is Some && own->0@ == v);
            assert(holds(out@, v) <==> holds(seen, v) || here);
        }
        m += 1;
    }
}

fn net_points(doc: &Doc, lib: &PartLib, su: &Stackup, pins: &Vec<(PinRef, PinRole)>) -> (r: Vec<
    PinPoint,
>)
    requires
        forall|i: int|
            0 <= i < pins.len() ==> position_ready(
                doc@,
                lib@,
                (#[trigger] connectivity::role_pins(pins@)[i]).0,
            ),
    ensures
        connectivity::pin_points(r@) == points_of(
            doc@,
            lib@,
            su@,
            connectivity::role_pins(pins@),
            pins@.len(),
        ),
{
    let ghost v = connectivity::role_pins(pins@);
    let mut out: Vec<PinPoint> = Vec::new();
    let mut i: usize = 0;
    assert(connectivity::pin_points(out@) =~= Seq::empty());
    while i < pins.len()
        invariant
            i <= pins.len(),
            v == connectivity::role_pins(pins@),
            forall|k: int|
                0 <= k < v.len() ==> position_ready(doc@, lib@, (#[trigger] v[k]).0),
            connectivity::pin_points(out@) == points_of(doc@, lib@, su@, v, i as nat),
        decreases pins.len() - i,
    {
        let pr = &pins[i].0;
        assert(v[i as int].0 == pr@);
        if let Some(c) = doc.components.get(pr.comp.as_str()) {
            if let Some(def) = lib.get(c.part.as_str()) {
                if let Some(at) = pin_world(c, def, pr.pin.as_str()) {
                    let p = pin_point(doc, lib, su, at, pr);
                    let ghost done = connectivity::pin_points(out@);
                    let ghost one = p@;
                    out.push(p);
                    assert(connectivity::pin_points(out@) =~= done.push(one));
                }
            }
        }
        i += 1;
    }
    out
}

fn net_traces<'a>(doc: &'a Doc, net: &str) -> (r: Vec<&'a Trace>)
    ensures
        connectivity::trace_refs(r@) == traces_of(doc@, net@, doc@.traces.len()),
{
    let ghost d = doc@;
    let mut out: Vec<&'a Trace> = Vec::new();
    let mut i: usize = 0;
    assert(connectivity::trace_refs(out@) =~= Seq::empty());
    while i < doc.traces.len()
        invariant
            i <= doc@.traces.len(),
            d == doc@,
            connectivity::trace_refs(out@) == traces_of(d, net@, i as nat),
        decreases doc@.traces.len() - i,
    {
        let t = doc.traces.value_at(i);
        assert(d.traces[i as int].1 == t@);
        if str_eq(t.net.as_str(), net) {
            let ghost done = connectivity::trace_refs(out@);
            out.push(t);
            assert(connectivity::trace_refs(out@) =~= done.push(t@));
        }
        i += 1;
    }
    out
}

fn net_vias<'a>(doc: &'a Doc, net: &str) -> (r: Vec<&'a Via>)
    ensures
        connectivity::via_refs(r@) == vias_of(doc@, net@, doc@.vias.len()),
{
    let ghost d = doc@;
    let mut out: Vec<&'a Via> = Vec::new();
    let mut i: usize = 0;
    assert(connectivity::via_refs(out@) =~= Seq::empty());
    while i < doc.vias.len()
        invariant
            i <= doc@.vias.len(),
            d == doc@,
            connectivity::via_refs(out@) == vias_of(d, net@, i as nat),
        decreases doc@.vias.len() - i,
    {
        let t = doc.vias.value_at(i);
        assert(d.vias[i as int].1 == t@);
        if str_eq(t.net.as_str(), net) {
            let ghost done = connectivity::via_refs(out@);
            out.push(t);
            assert(connectivity::via_refs(out@) =~= done.push(t@));
        }
        i += 1;
    }
    out
}

/// The pour islands of each net, as values.
pub open spec fn islands_views(v: Seq<Vec<(String, Region)>>) -> IslandsV {
    Seq::new(v.len(), |i: int| connectivity::island_views(v[i]@))
}

fn check_net(
    doc: &Doc,
    lib: &PartLib,
    net: &String,
    pins: &NetPins,
    su: &Stackup,
    tol: Nm,
    islands: &Vec<(String, Region)>,
    Ghost(b): Ghost<Board>,
    Ghost(k): Ghost<int>,
) -> (r: Option<Violation>)
    requires
        0 <= k < b.netlist.len(),
        b.doc == doc@,
        b.lib == lib@,
        b.su == su@,
        b.rules.touch_tol == tol,
        b.netlist[k] == (net@, pins@),
        b.islands[k] == connectivity::island_views(islands@),
        incidence::tol_ok(tol as int),
        net_checkable(b, k),
    ensures
        forall|v: ViolationV| #[trigger]
            unrouted_at(
                b.doc,
                b.lib,
                b.netlist,
                b.su,
                b.rules.touch_tol,
                b.islands,
                k,
                v,
            ) <==> r is Some && r->0@ == v,
{
    assert(b.netlist[k].1 == pins@);
    if pins.pins.len() < 2 {
        return None;
    }
    let points = net_points(doc, lib, su, &pins.pins);
    let traces = net_traces(doc, net.as_str());
    let vias = net_vias(doc, net.as_str());
    let c = Copper { pins: &points, traces: &traces, vias: &vias, islands };
    proof {
        let want = net_copper(b.doc, b.lib, b.netlist, b.su, b.islands, k);
        assert(c@.pins =~= want.pins);
        assert(c@ == want);
    }
    let n: usize = pin_islands(&c, su, tol);
    if n > 1 {
        Some(Violation::Unrouted { net: NetId::new(net.as_str()), islands: n })
    } else {
        None
    }
}

fn check_nets(
    out: &mut Vec<Violation>,
    doc: &Doc,
    lib: &PartLib,
    netlist: &Netlist,
    su: &Stackup,
    tol: Nm,
    islands: &Vec<Vec<(String, Region)>>,
    Ghost(b): Ghost<Board>,
)
    requires
        rules::canonical(rules::violation_views(old(out)@)),
        b.doc == doc@,
        b.lib == lib@,
        b.netlist == netlist@,
        b.su == su@,
        b.rules.touch_tol == tol,
        b.islands == islands_views(islands@),
        b.islands.len() == b.netlist.len(),
        nets_checkable(b),
    ensures
        rules::canonical(rules::violation_views(final(out)@)),
        forall|v: ViolationV| #[trigger]
            holds(final(out)@, v) <==> holds(old(out)@, v) || any_unrouted(b, v),
{
    let ghost was = out@;
    let mut i: usize = 0;
    while i < netlist.len()
        invariant
            i <= b.netlist.len(),
            b.doc == doc@,
            b.lib == lib@,
            b.netlist == netlist@,
            b.su == su@,
            b.rules.touch_tol == tol,
            b.islands == islands_views(islands@),
            b.islands.len() == b.netlist.len(),
            nets_checkable(b),
            rules::canonical(rules::violation_views(out@)),
            forall|v: ViolationV| #[trigger]
                holds(out@, v) <==> holds(was, v) || exists|k: int|
                    0 <= k < i && #[trigger] unrouted_at(
                        b.doc,
                        b.lib,
                        b.netlist,
                        b.su,
                        b.rules.touch_tol,
                        b.islands,
                        k,
                        v,
                    ),
        decreases b.netlist.len() - i,
    {
        let ghost seen = out@;
        let net = netlist.key_at(i);
        let pins = netlist.value_at(i);
        assert(net_checkable(b, i as int));
        let hit = check_net(
            doc,
            lib,
            net,
            pins,
            su,
            tol,
            &islands[i],
            Ghost(b),
            Ghost(i as int),
        );
        add_some(out, hit);
        assert forall|v: ViolationV| #[trigger] holds(out@, v) <==> holds(was, v) || exists|k: int|
            0 <= k < i + 1 && #[trigger] unrouted_at(
                b.doc,
                b.lib,
                b.netlist,
                b.su,
                b.rules.touch_tol,
                b.islands,
                k,
                v,
            ) by {
            let here = unrouted_at(
                b.doc,
                b.lib,
                b.netlist,
                b.su,
                b.rules.touch_tol,
                b.islands,
                i as int,
                v,
            );
            assert(holds(out@, v) <==> holds(seen, v) || here);
        }
        i += 1;
    }
}

/// The board that a check looks at.
pub open spec fn board_of(
    doc: DocV,
    lib: Seq<(Seq<char>, PartV)>,
    netlist: NetlistV,
    rules: DesignRules,
    su: Seq<SlabV>,
    world: Seq<NetFeatureV>,
    spills: Seq<bool>,
    islands: IslandsV,
) -> Board {
    Board { doc, lib, netlist, rules, su, world, spills, islands }
}

/// Check a document's routing against the rules. `world` is everything physical;
/// `spills` says of each piece of [`edge_jobs`] whether it spills over the board;
/// `islands` are, for each net, the islands of the union of its fills on each slab. The
/// result is canonical: sorted, with no violation twice.
pub fn check_drc(
    doc: &Doc,
    lib: &PartLib,
    netlist: &Netlist,
    rules: &DesignRules,
    su: &Stackup,
    world: &Vec<NetFeature>,
    spills: &Vec<bool>,
    islands: &Vec<Vec<(String, Region)>>,
) -> (r: Vec<Violation>)
    requires
        checkable(
            board_of(
                doc@,
                lib@,
                netlist@,
                *rules,
                su@,
                feature::net_feature_views(world@),
                spills@,
                islands_views(islands@),
            ),
        ),
    ensures
        rules::canonical(rules::violation_views(r@)),
        forall|v: ViolationV| #[trigger]
            rules::violation_views(r@).contains(v) <==> is_violation(
                board_of(
                    doc@,
                    lib@,
                    netlist@,
                    *rules,
                    su@,
                    feature::net_feature_views(world@),
                    spills@,
                    islands_views(islands@),
                ),
                v,
            ),
{
    let ghost b = board_of(
        doc@,
        lib@,
        netlist@,
        *rules,
        su@,
        feature::net_feature_views(world@),
        spills@,
        islands_views(islands@),
    );
    let cu = su.copper_slabs();
    let ghost slabs = stackup::copper_of(su@);
    let mut out: Vec<Violation> = Vec::new();
    let ghost none = out@;
    assert(forall|v: ViolationV| !holds(none, v));
    check_widths(&mut out, doc, rules.min_trace_width);
    let ghost widths = out@;
    let infos = gather(world, &cu);
    check_clearances(&mut out, world, &infos, rules, Ghost(slabs));
    let ghost clearances = out@;
    check_keepouts(&mut out, world, &infos, rules, Ghost(slabs));
    let ghost keepouts = out@;
    check_edges(&mut out, world, &infos, spills, Ghost(slabs), Ghost(rules.edge_clearance));
    let ghost edges = out@;
    check_nets(&mut out, doc, lib, netlist, su, rules.touch_tol, islands, Ghost(b));
    assert forall|v: ViolationV| #[trigger]
        rules::violation_views(out@).contains(v) <==> is_violation(b, v) by {
        assert(!holds(none, v));
        assert(holds(edges, v) <==> holds(keepouts, v) || any_spills(
            b.world,
            slabs,
            b.rules.edge_clearance,
            b.spills,
            v,
        ));
        assert(holds(clearances, v) ==> holds(keepouts, v));
        assert(holds(widths, v) ==> holds(clearances, v));
        assert(holds(out@, v) <==> is_violation(b, v));
    }
    out
}

/// The board of a document: its world is what the document, its source and the fills of
/// its pours make under the same rules that the check goes by.
pub open spec fn doc_board(
    doc: DocV,
    lib: Seq<(Seq<char>, PartV)>,
    netlist: NetlistV,
    rules: DesignRules,
    su: Seq<SlabV>,
    src: SourceV,
    fills: Seq<Seq<Seq<Point>>>,
    spills: Seq<bool>,
    islands: IslandsV,
) -> Board {
    let world = features::world_of(
        doc,
        lib,
        netlist,
        rules.min_clearance as int,
        su,
        src,
        fills,
    );
    board_of(doc, lib, netlist, rules, su, world->Ok_0, spills, islands)
}

/// The world of the document can be made, with one fill for each of its pours.
pub open spec fn doc_ready(
    doc: DocV,
    lib: Seq<(Seq<char>, PartV)>,
    netlist: NetlistV,
    rules: DesignRules,
    su: Seq<SlabV>,
    src: SourceV,
    fills: Seq<Seq<Seq<Point>>>,
) -> bool {
    let clr = rules.min_clearance as int;
    &&& features::world_ready(doc, lib, netlist, clr, su, src)
    &&& fills.len() == features::doc_jobs(doc, lib, netlist, clr, su, src.regions).len()
}

/// Check a document: make its world, and check that. The pours are cut back by the same
/// clearance that the check goes by, which is why a pour need not be held against solid
/// copper. Fails only where the source's own geometry failed.
pub fn check_document(
    doc: &Doc,
    lib: &PartLib,
    netlist: &Netlist,
    rules: &DesignRules,
    su: &Stackup,
    src: &SourceGeometry,
    fills: &Vec<Region>,
    spills: &Vec<bool>,
    islands: &Vec<Vec<(String, Region)>>,
) -> (r: Result<Vec<Violation>, String>)
    requires
        doc_ready(
            doc@,
            lib@,
            netlist@,
            *rules,
            su@,
            src@,
            features::fill_views(fills@),
        ),
        src@.features is Ok ==> checkable(
            doc_board(
                doc@,
                lib@,
                netlist@,
                *rules,
                su@,
                src@,
                features::fill_views(fills@),
                spills@,
                islands_views(islands@),
            ),
        ),
    ensures
        match (r, src@.features) {
            (Ok(vs), Ok(_)) => {
                &&& rules::canonical(rules::violation_views(vs@))
                &&& forall|v: ViolationV| #[trigger]
                    rules::violation_views(vs@).contains(v) <==> is_violation(
                        doc_board(
                            doc@,
                            lib@,
                            netlist@,
                            *rules,
                            su@,
                            src@,
                            features::fill_views(fills@),
                            spills@,
                            islands_views(islands@),
                        ),
                        v,
                    )
            },
            (Err(e), Err(m)) => e@ == m,
            _ => false,
        },
{
    match world_features(doc, lib, netlist, rules, su, src, fills) {
        Ok(world) => Ok(check_drc(doc, lib, netlist, rules, su, &world, spills, islands)),
        Err(e) => Err(e),
    }
}

// ---------------------------------------------------------------------------
// Laws.
// ---------------------------------------------------------------------------

/// A clearance violation is between two different nets, and names them in order.
pub proof fn clearance_is_between_two_nets(
    b: Board,
    net: Seq<char>,
    other: Seq<char>,
    layer: Seq<char>,
)
    requires
        is_violation(b, ViolationV::Clearance { a: net, b: other, layer }),
    ensures
        text::lex_lt(net, other),
        net != other,
{
    let v = ViolationV::Clearance { a: net, b: other, layer };
    let cu = stackup::copper_of(b.su);
    let (i, j) = choose|i: int, j: int|
        0 <= i < j < b.world.len() && #[trigger] close_at(
            b.world,
            cu,
            b.rules.min_clearance,
            i,
            j,
            v,
        );
    let x = (conductor(b.world[i], cu)->0).2;
    let y = (conductor(b.world[j], cu)->0).2;
    text::lex_lt_total(x, y);
    text::lex_lt_irreflexive(net);
}

/// Two boards that differ only in their rules.
pub open spec fn same_but_rules(b: Board, c: Board) -> bool {
    c == (Board { rules: c.rules, ..b })
}

/// A looser clearance reports no clearance violation that a stricter one does not.
pub proof fn looser_clearance_reports_less(
    b: Board,
    c: Board,
    net: Seq<char>,
    other: Seq<char>,
    layer: Seq<char>,
)
    requires
        same_but_rules(b, c),
        c.rules.min_clearance <= b.rules.min_clearance,
        is_violation(c, ViolationV::Clearance { a: net, b: other, layer }),
    ensures
        is_violation(b, ViolationV::Clearance { a: net, b: other, layer }),
{
    let v = ViolationV::Clearance { a: net, b: other, layer };
    let cu = stackup::copper_of(b.su);
    let (i, j) = choose|i: int, j: int|
        0 <= i < j < c.world.len() && #[trigger] close_at(
            c.world,
            cu,
            c.rules.min_clearance,
            i,
            j,
            v,
        );
    let (f, g) = (b.world[i].feature, b.world[j].feature);
    if feature::clear_of(f, g, b.rules.min_clearance as int) {
        feature::clear_of_monotone(
            f,
            g,
            c.rules.min_clearance as int,
            b.rules.min_clearance as int,
        );
    }
    assert(close_at(b.world, cu, b.rules.min_clearance, i, j, v));
}

/// A narrower rule reports no width violation that a wider one does not.
pub proof fn narrower_rule_reports_less(b: Board, c: Board, trace: TraceId, width: Nm)
    requires
        same_but_rules(b, c),
        c.rules.min_trace_width <= b.rules.min_trace_width,
        is_violation(c, ViolationV::MinWidth { trace, width }),
    ensures
        is_violation(b, ViolationV::MinWidth { trace, width }),
{
    let v = ViolationV::MinWidth { trace, width };
    let i = choose|i: int|
        0 <= i < c.doc.traces.len() && #[trigger] narrow_at(
            c.doc,
            c.rules.min_trace_width,
            i,
            v,
        );
    assert(narrow_at(b.doc, b.rules.min_trace_width, i, v));
}

/// A width violation stands for one trace: the one of that number, with that width, which is
/// below the rule.
pub proof fn width_violation_is_one_trace(b: Board, trace: TraceId, width: Nm, i: int)
    requires
        doc::doc_wf(b.doc),
        is_violation(b, ViolationV::MinWidth { trace, width }),
        0 <= i < b.doc.traces.len(),
        b.doc.traces[i].0 == trace,
    ensures
        b.doc.traces[i].1.width == width,
        width < b.rules.min_trace_width,
{
    let v = ViolationV::MinWidth { trace, width };
    let k = choose|k: int|
        0 <= k < b.doc.traces.len() && #[trigger] narrow_at(
            b.doc,
            b.rules.min_trace_width,
            k,
            v,
        );
    numbered::numbers_are_single(b.doc.traces, i, k);
}

/// Every pin of the net that has a position is joined to the first through its copper.
pub open spec fn net_joined(b: Board, k: int) -> bool {
    let n = net_copper(b.doc, b.lib, b.netlist, b.su, b.islands, k);
    let links = connectivity::links(n, stackup::copper_of(b.su), b.rules.touch_tol as int);
    forall|x: int| 0 <= x < n.pins.len() ==> #[trigger] union_find::joined(links, 0, x)
}

/// A net of two pins or more is reported as unrouted exactly when its copper leaves some
/// pin apart from the first.
pub proof fn unrouted_is_not_joined(b: Board, k: int)
    requires
        0 <= k < b.netlist.len(),
        b.netlist[k].1.len() >= 2,
    ensures
        net_joined(b, k) <==> !exists|v: ViolationV| #[trigger]
            unrouted_at(
                b.doc,
                b.lib,
                b.netlist,
                b.su,
                b.rules.touch_tol,
                b.islands,
                k,
                v,
            ),
{
    let n = net_copper(b.doc, b.lib, b.netlist, b.su, b.islands, k);
    let links = connectivity::links(n, stackup::copper_of(b.su), b.rules.touch_tol as int);
    let p = n.pins.len();
    let count = union_find::groups(links, p);
    union_find::groups_bounds(links, p);
    if net_joined(b, k) {
        if p > 0 {
            union_find::all_joined_is_one_group(links, p);
        }
    } else {
        if count <= 1 {
            assert forall|x: int| 0 <= x < p implies #[trigger] union_find::joined(links, 0, x) by {
                union_find::one_group_is_all_joined(links, p, x);
            }
        }
        let v = ViolationV::Unrouted { net: b.netlist[k].0, islands: count as usize };
        assert(unrouted_at(
            b.doc,
            b.lib,
            b.netlist,
            b.su,
            b.rules.touch_tol,
            b.islands,
            k,
            v,
        ));
    }
}

proof fn routed_follows(a: DocV, b: DocV, net: Seq<char>, k: nat)
    requires
        doc::same_layout(a, b),
    ensures
        traces_of(a, net, k) == traces_of(b, net, k),
        vias_of(a, net, k) == vias_of(b, net, k),
    decreases k,
{
    if k > 0 {
        routed_follows(a, b, net, (k - 1) as nat);
    }
}

proof fn points_follow(
    a: DocV,
    b: DocV,
    lib: Seq<(Seq<char>, PartV)>,
    su: Seq<SlabV>,
    pins: Seq<(PinRefV, PinRole)>,
    k: nat,
)
    requires
        doc::same_layout(a, b),
    ensures
        points_of(a, lib, su, pins, k) == points_of(b, lib, su, pins, k),
    decreases k,
{
    if k > 0 {
        points_follow(a, b, lib, su, pins, (k - 1) as nat);
    }
}

/// The violations of a document follow from its layout, its netlist and its geometry:
/// nothing else of the document is read.
pub proof fn violations_follow_the_layout(
    d: DocV,
    e: DocV,
    lib: Seq<(Seq<char>, PartV)>,
    netlist: NetlistV,
    rules: DesignRules,
    su: Seq<SlabV>,
    src: SourceV,
    fills: Seq<Seq<Seq<Point>>>,
    spills: Seq<bool>,
    islands: IslandsV,
    v: ViolationV,
)
    requires
        doc::same_layout(d, e),
    ensures
        is_violation(doc_board(d, lib, netlist, rules, su, src, fills, spills, islands), v)
            == is_violation(
            doc_board(e, lib, netlist, rules, su, src, fills, spills, islands),
            v,
        ),
{
    let b = doc_board(d, lib, netlist, rules, su, src, fills, spills, islands);
    let c = doc_board(e, lib, netlist, rules, su, src, fills, spills, islands);
    features::world_follows_the_layout(
        d,
        e,
        lib,
        netlist,
        rules.min_clearance as int,
        su,
        src,
        fills,
    );
    assert(b.world == c.world);
    let min = rules.min_trace_width;
    assert forall|i: int| #[trigger] narrow_at(d, min, i, v) == narrow_at(e, min, i, v) by {}
    assert forall|i: int| #[trigger] narrow_at(e, min, i, v) == narrow_at(d, min, i, v) by {}
    assert(any_narrow(d, min, v) == any_narrow(e, min, v));
    if any_unrouted(b, v) {
        unrouted_follows(b, c, v);
    }
    if any_unrouted(c, v) {
        unrouted_follows(c, b, v);
    }
}

proof fn unrouted_follows(b: Board, c: Board, v: ViolationV)
    requires
        any_unrouted(b, v),
        c == (Board { doc: c.doc, ..b }),
        doc::same_layout(b.doc, c.doc),
    ensures
        any_unrouted(c, v),
{
    let (d, e, nl) = (b.doc, c.doc, b.netlist);
    let tol = b.rules.touch_tol;
    let k = choose|k: int|
        0 <= k < nl.len() && #[trigger] unrouted_at(d, b.lib, nl, b.su, tol, b.islands, k, v);
    routed_follows(d, e, nl[k].0, d.traces.len());
    routed_follows(d, e, nl[k].0, d.vias.len());
    points_follow(d, e, b.lib, b.su, nl[k].1, nl[k].1.len());
    assert(unrouted_at(
        e,
        c.lib,
        c.netlist,
        c.su,
        c.rules.touch_tol,
        c.islands,
        k,
        v,
    ));
}

} // verus!
