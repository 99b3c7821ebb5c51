//! Which pins of a net its copper joins: pins, traces, vias and pour islands are nodes,
//! and two nodes are linked where their copper meets.

use super::incidence;
use super::incidence::{point_on_polyline, polylines_closer_than_inc, seg_within};
use super::layer;
use super::layer::{index_of_name, index_of_z, Trace, TraceV, Via, ViaV};
use super::union_find;
use super::union_find::UnionFind;
use crate::coord::{Nm, Point};
use crate::doc::{Doc, DocV, PinRef, PinRefV};
use crate::geom::feature;
use crate::geom::feature::{Feature, FeatureV};
use crate::geom::limits;
use crate::geom::polygon;
use crate::geom::polygon::Region;
use crate::geom::stackup;
use crate::geom::stackup::{Role, Slab, SlabV, Stackup};
use crate::names;
use crate::names::{Duplicate, NameMap};
use crate::part;
use crate::part::geometry;
use crate::part::{PartLib, PartV, PinRole, PinV};
use crate::text;
use crate::text::str_eq;
use vstd::prelude::*;

verus! {

// ---------------------------------------------------------------------------
// Netlists.
// ---------------------------------------------------------------------------

/// The pins of a net with their roles.
#[derive(Debug, PartialEq, Eq)]
pub struct NetPins {
    pub pins: Vec<(PinRef, PinRole)>,
}

/// Pins with roles as values.
pub open spec fn role_pins(v: Seq<(PinRef, PinRole)>) -> Seq<(PinRefV, PinRole)> {
    Seq::new(v.len(), |i: int| (v[i].0@, v[i].1))
}

impl View for NetPins {
    type V = Seq<(PinRefV, PinRole)>;

    open spec fn view(&self) -> Seq<(PinRefV, PinRole)> {
        role_pins(self.pins@)
    }
}

impl Duplicate for NetPins {
    fn duplicate(&self) -> (r: NetPins) {
        let mut pins: Vec<(PinRef, PinRole)> = Vec::new();
        let mut i: usize = 0;
        while i < self.pins.len()
            invariant
                i <= self.pins.len(),
                pins.len() == i,
                forall|k: int|
                    0 <= k < i ==> (#[trigger] pins@[k]).0@ == self.pins@[k].0@ && pins@[k].1
                        == self.pins@[k].1,
            decreases self.pins.len() - i,
        {
            pins.push((self.pins[i].0.duplicate(), self.pins[i].1));
            i += 1;
        }
        let r = NetPins { pins };
        assert(r@ =~= self@);
        r
    }
}

/// The nets of a document with their pins, by net name.
pub type Netlist = NameMap<NetPins>;

/// A netlist as a value.
pub type NetlistV = Seq<(Seq<char>, Seq<(PinRefV, PinRole)>)>;

// ---------------------------------------------------------------------------
// Pin points.
// ---------------------------------------------------------------------------

/// A pin's position and the copper slabs that its pad occupies. A pin without pad copper
/// counts as present on every slab.
#[derive(Debug, PartialEq, Eq)]
pub struct PinPoint {
    pub at: Point,
    pub slabs: Vec<String>,
    pub all_layers: bool,
}

/// A pin point as a value.
pub struct PinPointV {
    pub at: Point,
    pub slabs: Set<Seq<char>>,
    pub all_layers: bool,
}

impl View for PinPoint {
    type V = PinPointV;

    open spec fn view(&self) -> PinPointV {
        PinPointV {
            at: self.at,
            slabs: text::strs(self.slabs@).to_set(),
            all_layers: self.all_layers,
        }
    }
}

/// The values of a list of pin points.
pub open spec fn pin_points(v: Seq<PinPoint>) -> Seq<PinPointV> {
    Seq::new(v.len(), |i: int| v[i]@)
}

/// The pin has copper on the slab.
pub open spec fn has_copper_on(p: PinPointV, layer: Seq<char>) -> bool {
    p.all_layers || p.slabs.contains(layer)
}

/// The names of the copper slabs on which some conductor of the list lies.
pub open spec fn conductor_slabs(fs: Seq<FeatureV>, cu: Seq<SlabV>) -> Set<Seq<char>> {
    Set::new(
        |n: Seq<char>|
            exists|i: int| 0 <= i < fs.len() && #[trigger] conductor_name(fs[i], cu) == Some(n),
    )
}

/// The copper slab of a conductor: the first whose height is the conductor's.
pub open spec fn conductor_name(f: FeatureV, cu: Seq<SlabV>) -> Option<Seq<char>> {
    if f.role == Role::Conductor && layer::z_index(cu, f.z) < cu.len() {
        Some(cu[layer::z_index(cu, f.z)].name)
    } else {
        None
    }
}

/// The definition of a pin reference: the component and the discrete pin of its number.
pub open spec fn pin_of(
    d: DocV,
    lib: Seq<(Seq<char>, PartV)>,
    pr: PinRefV,
) -> Option<(crate::doc::ComponentV, PinV)> {
    match names::lookup(d.components, pr.comp) {
        Some(c) => match names::lookup(lib, c.part) {
            Some(def) => match part::find_pin(def.pins, pr.pin) {
                Some(p) => Some((c, p)),
                None => None,
            },
            None => None,
        },
        None => None,
    }
}

/// The pad of a referenced pin can be placed.
pub open spec fn pin_ready(d: DocV, lib: Seq<(Seq<char>, PartV)>, pr: PinRefV) -> bool {
    match pin_of(d, lib, pr) {
        Some((c, p)) => geometry::pad_placeable(p, c),
        None => true,
    }
}

/// The copper slabs of a referenced pin's pad.
pub open spec fn pad_slabs(
    d: DocV,
    lib: Seq<(Seq<char>, PartV)>,
    su: Seq<SlabV>,
    pr: PinRefV,
) -> Set<Seq<char>> {
    match pin_of(d, lib, pr) {
        Some((c, p)) => conductor_slabs(
            geometry::pad_features_of(p, c, su),
            stackup::copper_of(su),
        ),
        None => Set::empty(),
    }
}

/// A pin at `at` with the slabs of its pad.
pub open spec fn point_of(
    d: DocV,
    lib: Seq<(Seq<char>, PartV)>,
    su: Seq<SlabV>,
    at: Point,
    pr: PinRefV,
) -> PinPointV {
    let slabs = pad_slabs(d, lib, su, pr);
    PinPointV { at, slabs, all_layers: slabs =~= Set::empty() }
}

impl PinPoint {
    /// Has the pin copper on the slab?
    pub fn on_slab(&self, layer: &str) -> (r: bool)
        ensures
            r == has_copper_on(self@, layer@),
    {
        if self.all_layers {
            return true;
        }
        let ghost names = text::strs(self.slabs@);
        let mut i: usize = 0;
        while i < self.slabs.len()
            invariant
                i <= self.slabs.len(),
                names == text::strs(self.slabs@),
                forall|k: int| 0 <= k < i ==> #[trigger] names[k] != layer@,
            decreases self.slabs.len() - i,
        {
            assert(names[i as int] == self.slabs@[i as int]@);
            if str_eq(self.slabs[i].as_str(), layer) {
                assert(names.contains(layer@));
                return true;
            }
            i += 1;
        }
        assert(!names.contains(layer@));
        false
    }
}

/// The names of the copper slabs on which some conductor of the list lies.
fn slabs_of(fs: &Vec<Feature>, cu: &Vec<&Slab>) -> (r: Vec<String>)
    ensures
        text::strs(r@).to_set() == conductor_slabs(
            feature::feature_views(fs@),
            stackup::slab_refs(cu@),
        ),
{
    let ghost v = feature::feature_views(fs@);
    let ghost c = stackup::slab_refs(cu@);
    let mut out: Vec<String> = Vec::new();
    let mut i: usize = 0;
    while i < fs.len()
        invariant
            i <= fs.len(),
            v == feature::feature_views(fs@),
            c == stackup::slab_refs(cu@),
            forall|n: Seq<char>|
                #![trigger text::strs(out@).contains(n)]
                text::strs(out@).contains(n) <==> exists|k: int|
                    0 <= k < i && #[trigger] conductor_name(v[k], c) == Some(n),
        decreases fs.len() - i,
    {
        let f = &fs[i];
        assert(v[i as int] == f@);
        let ghost before = text::strs(out@);
        let ghost own = conductor_name(v[i as int], c);
        let mut added = false;
        if f.role == Role::Conductor {
            let (_shape, z) = f.prism_parts();
            let at = index_of_z(cu, *z);
            if at < cu.len() {
                out.push(cu[at].name.clone());
                added = true;
                assert(c[at as int].name == cu@[at as int].name@);
                assert(text::strs(out@) =~= before.push(own->0));
            }
        }
        proof {
            let after = text::strs(out@);
            assert(added == (own is Some));
            assert forall|n: Seq<char>| after.contains(n) <==> exists|k: int|
                0 <= k < i + 1 && #[trigger] conductor_name(v[k], c) == Some(n) by {
                if after.contains(n) {
                    let j = choose|j: int| 0 <= j < after.len() && after[j] == n;
                    if j < before.len() {
                        assert(before[j] == n);
                        assert(before.contains(n));
                    } else {
                        assert(conductor_name(v[i as int], c) == Some(n));
                    }
                }
                if exists|k: int|
                    0 <= k < i + 1 && #[trigger] conductor_name(v[k], c) == Some(n) {
                    let k = choose|k: int|
                        0 <= k < i + 1 && #[trigger] conductor_name(v[k], c) == Some(n);
                    if k < i {
                        assert(before.contains(n));
                        let j = choose|j: int| 0 <= j < before.len() && before[j] == n;
                        assert(after[j] == n);
                    } else {
                        assert(after[after.len() - 1] == n);
                    }
                }
            }
        }
        i += 1;
    }
    assert(text::strs(out@).to_set() =~= conductor_slabs(v, c));
    out
}

/// A pin at `at` with the copper slabs that its pad occupies.
pub fn pin_point(doc: &Doc, lib: &PartLib, su: &Stackup, at: Point, pr: &PinRef) -> (r: PinPoint)
    requires
        pin_ready(doc@, lib@, pr@),
    ensures
        r@ == point_of(doc@, lib@, su@, at, pr@),
{
    let mut slabs: Vec<String> = Vec::new();
    assert(text::strs(slabs@).to_set() =~= Set::empty());
    if let Some(c) = doc.components.get(pr.comp.as_str()) {
        if let Some(def) = lib.get(c.part.as_str()) {
            if let Some(pin) = def.pin_numbered(pr.pin.as_str()) {
                let cu = su.copper_slabs();
                let fs = pin.pad_features(c, su);
                slabs = slabs_of(&fs, &cu);
            }
        }
    }
    let all_layers = slabs.len() == 0;
    proof {
        let names = text::strs(slabs@);
        let set = names.to_set();
        if names.len() > 0 {
            assert(names.contains(names[0]));
            assert(set.contains(names[0]));
        } else {
            assert(set =~= Set::empty());
        }
    }
    PinPoint { at, slabs, all_layers }
}

// ---------------------------------------------------------------------------
// Links.
// ---------------------------------------------------------------------------

/// The copper of one net: its pins, traces, vias, and pour islands with their slabs.
pub struct NetCopper {
    pub pins: Seq<PinPointV>,
    pub traces: Seq<TraceV>,
    pub vias: Seq<ViaV>,
    pub islands: Seq<(Seq<char>, Seq<Seq<Point>>)>,
}

/// The via spans the copper slab of that name.
pub open spec fn spans_name(v: ViaV, cu: Seq<SlabV>, name: Seq<char>) -> bool {
    let i = stackup::slab_index(cu, name);
    i < cu.len() && match layer::via_range(v, cu) {
        Some((lo, hi)) => lo <= i <= hi,
        None => false,
    }
}

/// The spans of two vias have a slab in common.
pub open spec fn spans_meet(v: ViaV, w: ViaV, cu: Seq<SlabV>) -> bool {
    match (layer::via_range(v, cu), layer::via_range(w, cu)) {
        (Some((a, b)), Some((c, d))) => a <= d && c <= b,
        _ => false,
    }
}

/// Two points lie within `tol` of each other.
pub open spec fn points_touch(p: Point, q: Point, tol: int) -> bool {
    incidence::segs_near(p, p, q, q, tol, false)
}

/// Some point of the path lies on the region.
pub open spec fn lands_on(path: Seq<Point>, rings: Seq<Seq<Point>>) -> bool {
    exists|k: int| 0 <= k < path.len() && #[trigger] polygon::in_region(path[k], rings)
}

/// A node: one of the pins, then of the traces, the vias and the islands.
pub enum Node {
    Pin(int),
    Trace(int),
    Via(int),
    Island(int),
}

/// The node of that number.
pub open spec fn node(n: NetCopper, x: int) -> Node {
    let (p, t, v) = (n.pins.len() as int, n.traces.len() as int, n.vias.len() as int);
    if x < p {
        Node::Pin(x)
    } else if x < p + t {
        Node::Trace(x - p)
    } else if x < p + t + v {
        Node::Via(x - p - t)
    } else {
        Node::Island(x - p - t - v)
    }
}

/// How many nodes there are.
pub open spec fn node_count(n: NetCopper) -> int {
    (n.pins.len() + n.traces.len() + n.vias.len() + n.islands.len()) as int
}

/// The copper of two nodes meets. A pin or a via meets a trace or a pin within the touch
/// tolerance; traces meet on their own layer only; a via reaches the slabs it spans; a pin
/// meets a pour only on a slab where its pad has copper. Islands do not meet each other.
pub open spec fn meets(n: NetCopper, cu: Seq<SlabV>, tol: int, x: int, y: int) -> bool {
    match (node(n, x), node(n, y)) {
        (Node::Pin(i), Node::Pin(j)) => points_touch(n.pins[i].at, n.pins[j].at, tol),
        (Node::Pin(i), Node::Trace(j)) => incidence::on_polyline(
            n.pins[i].at,
            n.traces[j].path,
            tol,
        ),
        (Node::Pin(i), Node::Via(j)) => points_touch(n.pins[i].at, n.vias[j].at, tol),
        (Node::Pin(i), Node::Island(j)) => has_copper_on(n.pins[i], n.islands[j].0)
            && polygon::in_region(n.pins[i].at, n.islands[j].1),
        (Node::Trace(i), Node::Trace(j)) => n.traces[i].layer == n.traces[j].layer
            && incidence::polylines_touch(n.traces[i].path, n.traces[j].path, tol),
        (Node::Trace(i), Node::Via(j)) => spans_name(n.vias[j], cu, n.traces[i].layer)
            && incidence::on_polyline(n.vias[j].at, n.traces[i].path, tol),
        (Node::Trace(i), Node::Island(j)) => n.traces[i].layer == n.islands[j].0 && lands_on(
            n.traces[i].path,
            n.islands[j].1,
        ),
        (Node::Via(i), Node::Via(j)) => spans_meet(n.vias[i], n.vias[j], cu) && points_touch(
            n.vias[i].at,
            n.vias[j].at,
            tol,
        ),
        (Node::Via(i), Node::Island(j)) => spans_name(n.vias[i], cu, n.islands[j].0)
            && polygon::in_region(n.vias[i].at, n.islands[j].1),
        _ => false,
    }
}

/// The links of a net: the pairs of nodes, in order, whose copper meets.
pub open spec fn links(n: NetCopper, cu: Seq<SlabV>, tol: int) -> Set<(int, int)> {
    Set::new(|e: (int, int)| 0 <= e.0 < e.1 < node_count(n) && meets(n, cu, tol, e.0, e.1))
}

/// Into how many groups the copper of a net joins its pins.
pub open spec fn island_count(n: NetCopper, cu: Seq<SlabV>, tol: int) -> nat {
    union_find::groups(links(n, cu, tol), n.pins.len())
}

/// The copper lies where incidence is exact.
pub open spec fn copper_ready(n: NetCopper) -> bool {
    &&& forall|i: int| 0 <= i < n.pins.len() ==> limits::pt_safe((#[trigger] n.pins[i]).at)
    &&& forall|i: int| 0 <= i < n.traces.len() ==> limits::all_safe((#[trigger] n.traces[i]).path)
    &&& forall|i: int| 0 <= i < n.vias.len() ==> limits::pt_safe((#[trigger] n.vias[i]).at)
    &&& forall|i: int|
        0 <= i < n.islands.len() ==> polygon::rings_exact((#[trigger] n.islands[i]).1)
}

/// Traces as values.
pub open spec fn trace_refs(v: Seq<&Trace>) -> Seq<TraceV> {
    Seq::new(v.len(), |i: int| v[i]@)
}

/// Vias as values.
pub open spec fn via_refs(v: Seq<&Via>) -> Seq<ViaV> {
    Seq::new(v.len(), |i: int| v[i]@)
}

/// Pour islands as values.
pub open spec fn island_views(v: Seq<(String, Region)>) -> Seq<(Seq<char>, Seq<Seq<Point>>)> {
    Seq::new(v.len(), |i: int| (v[i].0@, v[i].1@))
}

fn via_spans_name(v: &Via, cu: &Vec<&Slab>, name: &str) -> (r: bool)
    ensures
        r == spans_name(v@, stackup::slab_refs(cu@), name@),
{
    let i = index_of_name(cu, name);
    if i >= cu.len() {
        return false;
    }
    match v.span_range(cu) {
        Some((lo, hi)) => lo <= i && i <= hi,
        None => false,
    }
}

fn via_spans_meet(v: &Via, w: &Via, cu: &Vec<&Slab>) -> (r: bool)
    ensures
        r == spans_meet(v@, w@, stackup::slab_refs(cu@)),
{
    match (v.span_range(cu), w.span_range(cu)) {
        (Some((a, b)), Some((c, d))) => a <= d && c <= b,
        _ => false,
    }
}

fn path_lands_on(path: &Vec<Point>, island: &Region) -> (r: bool)
    requires
        limits::all_safe(path@),
        polygon::rings_exact(island@),
    ensures
        r == lands_on(path@, island@),
{
    let mut i: usize = 0;
    while i < path.len()
        invariant
            i <= path.len(),
            limits::all_safe(path@),
            polygon::rings_exact(island@),
            forall|k: int| 0 <= k < i ==> !#[trigger] polygon::in_region(path@[k], island@),
        decreases path.len() - i,
    {
        assert(limits::pt_safe(path@[i as int]));
        if island.contains_point(path[i]) {
            assert(polygon::in_region(path@[i as int], island@));
            return true;
        }
        i += 1;
    }
    false
}

/// The copper of one net, as it is checked.
pub struct Copper<'a> {
    pub pins: &'a Vec<PinPoint>,
    pub traces: &'a Vec<&'a Trace>,
    pub vias: &'a Vec<&'a Via>,
    pub islands: &'a Vec<(String, Region)>,
}

impl<'a> View for Copper<'a> {
    type V = NetCopper;

    open spec fn view(&self) -> NetCopper {
        NetCopper {
            pins: pin_points(self.pins@),
            traces: trace_refs(self.traces@),
            vias: via_refs(self.vias@),
            islands: island_views(self.islands@),
        }
    }
}

impl<'a> Copper<'a> {
    /// Does the copper of two nodes, in order, meet?
    fn nodes_meet(&self, cu: &Vec<&Slab>, tol: Nm, x: usize, y: usize) -> (r: bool)
        requires
            x < y < node_count(self@),
            node_count(self@) <= usize::MAX,
            copper_ready(self@),
            incidence::tol_ok(tol as int),
        ensures
            r == meets(self@, stackup::slab_refs(cu@), tol as int, x as int, y as int),
    {
        let ghost n = self@;
        let (p, t, v) = (self.pins.len(), self.traces.len(), self.vias.len());
        if x < p {
            let a = &self.pins[x];
            assert(n.pins[x as int] == a@);
            if y < p {
                let b = &self.pins[y];
                assert(n.pins[y as int] == b@);
                seg_within(a.at, a.at, b.at, b.at, tol, false)
            } else if y < p + t {
                let b = self.traces[y - p];
                assert(n.traces[y - p] == b@);
                point_on_polyline(a.at, &b.path, tol)
            } else if y < p + t + v {
                let b = self.vias[y - p - t];
                assert(n.vias[y - p - t] == b@);
                seg_within(a.at, a.at, b.at, b.at, tol, false)
            } else {
                let b = &self.islands[y - p - t - v];
                assert(n.islands[y - p - t - v] == (b.0@, b.1@));
                a.on_slab(b.0.as_str()) && b.1.contains_point(a.at)
            }
        } else if x < p + t {
            let a = self.traces[x - p];
            assert(n.traces[x - p] == a@);
            if y < p + t {
                let b = self.traces[y - p];
                assert(n.traces[y - p] == b@);
                str_eq(a.layer.as_str(), b.layer.as_str()) && polylines_closer_than_inc(
                    &a.path,
                    &b.path,
                    tol,
                )
            } else if y < p + t + v {
                let b = self.vias[y - p - t];
                assert(n.vias[y - p - t] == b@);
                via_spans_name(b, cu, a.layer.as_str()) && point_on_polyline(b.at, &a.path, tol)
            } else {
                let b = &self.islands[y - p - t - v];
                assert(n.islands[y - p - t - v] == (b.0@, b.1@));
                str_eq(a.layer.as_str(), b.0.as_str()) && path_lands_on(&a.path, &b.1)
            }
        } else if x < p + t + v {
            let a = self.vias[x - p - t];
            assert(n.vias[x - p - t] == a@);
            if y < p + t + v {
                let b = self.vias[y - p - t];
                assert(n.vias[y - p - t] == b@);
                via_spans_meet(a, b, cu) && seg_within(a.at, a.at, b.at, b.at, tol, false)
            } else {
                let b = &self.islands[y - p - t - v];
                assert(n.islands[y - p - t - v] == (b.0@, b.1@));
                via_spans_name(a, cu, b.0.as_str()) && b.1.contains_point(a.at)
            }
        } else {
            false
        }
    }
}

/// The links between nodes before `a` and any later node, and those of `a` with nodes
/// before `b`.
spec fn links_so_far(all: Set<(int, int)>, a: int, b: int) -> Set<(int, int)> {
    Set::new(|e: (int, int)| all.contains(e) && (e.0 < a || (e.0 == a && e.1 < b)))
}

/// The sets of the structure are what the links join.
spec fn matches_links(uf: UnionFind, links: Set<(int, int)>) -> bool {
    forall|x: int, y: int|
        0 <= x < uf.size() && 0 <= y < uf.size() ==> (#[trigger] uf.same(x, y)
            <==> union_find::joined(links, x, y))
}

proof fn union_matches(
    before: UnionFind,
    after: UnionFind,
    links: Set<(int, int)>,
    a: int,
    b: int,
)
    requires
        matches_links(before, links),
        0 <= a < before.size(),
        0 <= b < before.size(),
        after.size() == before.size(),
        forall|x: int, y: int|
            0 <= x < before.size() && 0 <= y < before.size() ==> (#[trigger] after.same(x, y) <==> {
                ||| before.same(x, y)
                ||| (before.same(x, a) && before.same(b, y))
                ||| (before.same(x, b) && before.same(a, y))
            }),
    ensures
        matches_links(after, links.insert((a, b))),
{
    assert forall|x: int, y: int| 0 <= x < after.size() && 0 <= y < after.size() implies (
    #[trigger] after.same(x, y) <==> union_find::joined(links.insert((a, b)), x, y)) by {
        union_find::joined_with_link(links, a, b, x, y);
        assert(before.same(x, y) <==> union_find::joined(links, x, y));
        assert(before.same(x, a) <==> union_find::joined(links, x, a));
        assert(before.same(b, y) <==> union_find::joined(links, b, y));
        assert(before.same(x, b) <==> union_find::joined(links, x, b));
        assert(before.same(a, y) <==> union_find::joined(links, a, y));
    }
}

/// Join the nodes of a net along its links.
fn join_nodes(c: &Copper, cu: &Vec<&Slab>, tol: Nm) -> (r: UnionFind)
    requires
        node_count(c@) <= usize::MAX,
        copper_ready(c@),
        incidence::tol_ok(tol as int),
    ensures
        r.wf(),
        r.size() == node_count(c@),
        r.roots().len() == r.size(),
        matches_links(r, links(c@, stackup::slab_refs(cu@), tol as int)),
{
    let ghost slabs = stackup::slab_refs(cu@);
    let ghost all = links(c@, slabs, tol as int);
    let n = c.pins.len() + c.traces.len() + c.vias.len() + c.islands.len();
    let mut uf = UnionFind::new(n);
    let mut a: usize = 0;
    proof {
        assert(links_so_far(all, 0, 0) =~= Set::empty());
        assert forall|x: int, y: int| 0 <= x < uf.size() && 0 <= y < uf.size() implies (
        #[trigger] uf.same(x, y) <==> union_find::joined(Set::empty(), x, y)) by {
            union_find::nothing_joined(x, y);
            assert(uf.roots()[x] == x && uf.roots()[y] == y);
        }
    }
    while a < n
        invariant
            a <= n,
            n == node_count(c@),
            node_count(c@) <= usize::MAX,
            copper_ready(c@),
            incidence::tol_ok(tol as int),
            slabs == stackup::slab_refs(cu@),
            all == links(c@, slabs, tol as int),
            uf.wf(),
            uf.size() == n,
            uf.roots().len() == n,
            matches_links(uf, links_so_far(all, a as int, 0)),
        decreases n - a,
    {
        let mut b: usize = a + 1;
        proof {
            assert(links_so_far(all, a as int, 0) =~= links_so_far(all, a as int, b as int));
        }
        while b < n
            invariant
                a < b <= n,
                n == node_count(c@),
                node_count(c@) <= usize::MAX,
                copper_ready(c@),
                incidence::tol_ok(tol as int),
                slabs == stackup::slab_refs(cu@),
                all == links(c@, slabs, tol as int),
                uf.wf(),
                uf.size() == n,
                uf.roots().len() == n,
                matches_links(uf, links_so_far(all, a as int, b as int)),
            decreases n - b,
        {
            let ghost seen = links_so_far(all, a as int, b as int);
            let ghost next = links_so_far(all, a as int, b + 1);
            if c.nodes_meet(cu, tol, a, b) {
                let ghost before = uf;
                uf.union(a, b);
                proof {
                    union_matches(before, uf, seen, a as int, b as int);
                    assert(all.contains((a as int, b as int)));
                    assert(next =~= seen.insert((a as int, b as int)));
                }
            } else {
                assert(next =~= seen);
            }
            b += 1;
        }
        proof {
            assert(links_so_far(all, a as int, b as int) =~= links_so_far(all, a + 1, 0));
        }
        a += 1;
    }
    proof {
        assert(links_so_far(all, a as int, 0) =~= all);
    }
    uf
}

/// Into how many groups the copper of a net joins its pins: one when the net is fully
/// routed.
pub fn pin_islands(c: &Copper, su: &Stackup, tol: Nm) -> (r: usize)
    requires
        node_count(c@) <= usize::MAX,
        copper_ready(c@),
        incidence::tol_ok(tol as int),
    ensures
        r == island_count(c@, stackup::copper_of(su@), tol as int),
{
    let cu = su.copper_slabs();
    let mut uf = join_nodes(c, &cu, tol);
    let ghost all = links(c@, stackup::copper_of(su@), tol as int);
    let ghost base = uf;
    let mut roots: Vec<usize> = Vec::new();
    let mut count: usize = 0;
    let mut i: usize = 0;
    while i < c.pins.len()
        invariant
            i <= c.pins.len(),
            c.pins.len() <= uf.size(),
            uf.wf(),
            uf.size() == base.size(),
            uf.roots() == base.roots(),
            matches_links(base, all),
            roots.len() == i,
            forall|k: int| 0 <= k < i ==> #[trigger] roots@[k] == base.roots()[k],
            count == union_find::groups(all, i as nat),
            count <= i,
        decreases c.pins.len() - i,
    {
        let r: usize = uf.find(i);
        let mut fresh = true;
        let mut j: usize = 0;
        while j < i
            invariant
                j <= i,
                i < base.size(),
                matches_links(base, all),
                roots.len() == i,
                r == base.roots()[i as int],
                forall|k: int| 0 <= k < i ==> #[trigger] roots@[k] == base.roots()[k],
                fresh == forall|k: int|
                    0 <= k < j ==> !#[trigger] union_find::joined(all, k, i as int),
            decreases i - j,
        {
            assert(base.same(j as int, i as int) <==> union_find::joined(
                all,
                j as int,
                i as int,
            ));
            if roots[j] == r {
                fresh = false;
            }
            j += 1;
        }
        roots.push(r);
        assert(fresh == union_find::is_first(all, i as int));
        if fresh {
            count += 1;
        }
        i += 1;
    }
    count
}

} // verus!
