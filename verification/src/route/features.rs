//! Everything physical of a board as features in the world frame: source geometry, placed
//! pads and footprint ink, routed copper, and pours.

use super::connectivity;
use super::connectivity::{Netlist, NetlistV};
use super::layer;
use super::layer::{index_of_name, index_of_z, Trace, TraceV, Via, ViaV};
use super::rules::DesignRules;
use crate::coord::{Nm, Point};
use crate::doc;
use crate::doc::{Component, ComponentV, Doc, DocV, PinRef, PinRefV};
use crate::geom::feature;
use crate::geom::feature::{Feature, FeatureV, NetFeature, NetFeatureV};
use crate::geom::path;
use crate::geom::polygon::{clone_points, Region};
use crate::geom::shape;
use crate::geom::shape::{Shape2D, ShapeV};
use crate::geom::stackup;
use crate::geom::stackup::{Material, Role, Slab, SlabV, Stackup, ZRange};
use crate::id::NetId;
use crate::ir;
use crate::ir::{RegionDecl, RegionV};
use crate::names;
use crate::names::{Duplicate, NameMap};
use crate::part::geometry;
use crate::part::geometry::{graphic_features, text_features, InkV, Lettering};
use crate::part::{CopperV, PadLayers, PartLib, PartV, PinDef, PinRole, PinV};
use crate::text;
use crate::text::str_eq;
use vstd::prelude::*;

verus! {

/// Copper features with the names of their slabs, as values.
pub type CopperList = Seq<(Seq<char>, NetFeatureV)>;

/// Copper features with the names of their slabs, as values.
pub open spec fn copper_list(v: Seq<(String, NetFeature)>) -> CopperList {
    Seq::new(v.len(), |i: int| (v[i].0@, v[i].1@))
}

// ---------------------------------------------------------------------------
// Routed and placed copper.
// ---------------------------------------------------------------------------

/// The net of a pin among the first `k`: the last that lists it.
pub open spec fn net_of_pin(nl: NetlistV, k: nat, pr: PinRefV) -> Option<Seq<char>>
    decreases k,
{
    if k == 0 {
        None
    } else if lists_pin(nl[k - 1].1, pr) {
        Some(nl[k - 1].0)
    } else {
        net_of_pin(nl, (k - 1) as nat, pr)
    }
}

/// The net lists the pin.
pub open spec fn lists_pin(pins: Seq<(PinRefV, PinRole)>, pr: PinRefV) -> bool {
    exists|i: int| 0 <= i < pins.len() && (#[trigger] pins[i]).0 == pr
}

/// The copper of a trace, on its slab.
pub open spec fn trace_copper(t: TraceV, cu: Seq<SlabV>) -> CopperList {
    let i = stackup::slab_index(cu, t.layer);
    if i < cu.len() {
        seq![
            (
                t.layer,
                feature::on_net(
                    t.net,
                    feature::prism_of(
                        Role::Conductor,
                        shape::trace_of(t.path, t.width as int),
                        cu[i].z,
                    ),
                ),
            ),
        ]
    } else {
        Seq::empty()
    }
}

/// The copper of a via: a disc on each slab that it spans.
pub open spec fn via_copper(v: ViaV, cu: Seq<SlabV>) -> CopperList {
    let s = layer::spanned_of(v, cu);
    Seq::new(
        s.len(),
        |i: int|
            (
                s[i].name,
                feature::on_net(
                    v.net,
                    feature::prism_of(
                        Role::Conductor,
                        shape::disc_of(v.at, path::half(v.pad as int)),
                        s[i].z,
                    ),
                ),
            ),
    )
}

/// The copper among the first `k` features of a pad, on its slabs.
pub open spec fn conductors_from(
    fs: Seq<FeatureV>,
    k: nat,
    net: Option<Seq<char>>,
    cu: Seq<SlabV>,
) -> CopperList
    decreases k,
{
    if k == 0 {
        Seq::empty()
    } else {
        let done = conductors_from(fs, (k - 1) as nat, net, cu);
        match connectivity::conductor_name(fs[k - 1], cu) {
            Some(n) => done.push((n, NetFeatureV { net, feature: fs[k - 1] })),
            None => done,
        }
    }
}

/// The copper of a pin's pad, if the pin is on a net as `netted` says, or on none.
pub open spec fn pin_copper(
    c: ComponentV,
    pin: PinV,
    nl: NetlistV,
    su: Seq<SlabV>,
    netted: bool,
) -> CopperList {
    let fs = geometry::pad_features_of(pin, c, su);
    let net = net_of_pin(nl, nl.len(), PinRefV { comp: c.id, pin: pin.number });
    if (net is Some) == netted {
        conductors_from(fs, fs.len(), net, stackup::copper_of(su))
    } else {
        Seq::empty()
    }
}

/// The copper of the first `k` pins of a part.
pub open spec fn pins_copper(
    c: ComponentV,
    pins: Seq<PinV>,
    k: nat,
    nl: NetlistV,
    su: Seq<SlabV>,
    netted: bool,
) -> CopperList
    decreases k,
{
    if k == 0 {
        Seq::empty()
    } else {
        pins_copper(c, pins, (k - 1) as nat, nl, su, netted) + pin_copper(
            c,
            pins[k - 1],
            nl,
            su,
            netted,
        )
    }
}

/// The copper of a component.
pub open spec fn component_copper(
    c: ComponentV,
    lib: Seq<(Seq<char>, PartV)>,
    nl: NetlistV,
    su: Seq<SlabV>,
    netted: bool,
) -> CopperList {
    match names::lookup(lib, c.part) {
        Some(def) => pins_copper(c, def.pins, def.pins.len(), nl, su, netted),
        None => Seq::empty(),
    }
}

/// The copper of the first `k` traces.
pub open spec fn traces_copper(d: DocV, k: nat, su: Seq<SlabV>) -> CopperList
    decreases k,
{
    if k == 0 {
        Seq::empty()
    } else {
        traces_copper(d, (k - 1) as nat, su) + trace_copper(
            d.traces[k - 1].1,
            stackup::copper_of(su),
        )
    }
}

/// The copper of the first `k` vias.
pub open spec fn vias_copper(d: DocV, k: nat, su: Seq<SlabV>) -> CopperList
    decreases k,
{
    if k == 0 {
        Seq::empty()
    } else {
        vias_copper(d, (k - 1) as nat, su) + via_copper(d.vias[k - 1].1, stackup::copper_of(su))
    }
}

/// The copper of the first `k` components.
pub open spec fn components_copper(
    d: DocV,
    k: nat,
    lib: Seq<(Seq<char>, PartV)>,
    nl: NetlistV,
    su: Seq<SlabV>,
    netted: bool,
) -> CopperList
    decreases k,
{
    if k == 0 {
        Seq::empty()
    } else {
        components_copper(d, (k - 1) as nat, lib, nl, su, netted) + component_copper(
            d.components[k - 1].1,
            lib,
            nl,
            su,
            netted,
        )
    }
}

/// The routed and placed copper of a document: traces, vias, then the pads on nets.
pub open spec fn copper_of_doc(
    d: DocV,
    lib: Seq<(Seq<char>, PartV)>,
    nl: NetlistV,
    su: Seq<SlabV>,
) -> CopperList {
    traces_copper(d, d.traces.len(), su) + vias_copper(d, d.vias.len(), su) + components_copper(
        d,
        d.components.len(),
        lib,
        nl,
        su,
        true,
    )
}

/// The solid copper of a document: what is on nets, then the pads on none.
pub open spec fn solid_of_doc(
    d: DocV,
    lib: Seq<(Seq<char>, PartV)>,
    nl: NetlistV,
    su: Seq<SlabV>,
) -> CopperList {
    copper_of_doc(d, lib, nl, su) + components_copper(d, d.components.len(), lib, nl, su, false)
}

/// Traces have points and pads can be placed.
pub open spec fn copper_placeable(d: DocV, lib: Seq<(Seq<char>, PartV)>) -> bool {
    &&& forall|i: int| 0 <= i < d.traces.len() ==> (#[trigger] d.traces[i]).1.path.len() > 0
    &&& forall|i: int|
        0 <= i < d.components.len() ==> component_placeable(
            (#[trigger] d.components[i]).1,
            lib,
        )
}

/// The pads of a component can be placed.
pub open spec fn component_placeable(c: ComponentV, lib: Seq<(Seq<char>, PartV)>) -> bool {
    match names::lookup(lib, c.part) {
        Some(def) => forall|i: int|
            0 <= i < def.pins.len() ==> geometry::pad_placeable(#[trigger] def.pins[i], c),
        None => true,
    }
}

fn pin_on_net(pins: &Vec<(PinRef, PinRole)>, pr: &PinRef) -> (r: bool)
    ensures
        r == lists_pin(connectivity::role_pins(pins@), pr@),
{
    let ghost v = connectivity::role_pins(pins@);
    let mut i: usize = 0;
    while i < pins.len()
        invariant
            i <= pins.len(),
            v == connectivity::role_pins(pins@),
            forall|k: int| 0 <= k < i ==> (#[trigger] v[k]).0 != pr@,
        decreases pins.len() - i,
    {
        assert(v[i as int].0 == pins@[i as int].0@);
        if pins[i].0.same(pr) {
            assert(v[i as int].0 == pr@);
            return true;
        }
        i += 1;
    }
    false
}

fn find_net<'a>(nl: &'a Netlist, pr: &PinRef) -> (r: Option<&'a String>)
    ensures
        match (r, net_of_pin(nl@, nl@.len(), pr@)) {
            (Some(a), Some(b)) => a@ == b,
            (None, None) => true,
            _ => false,
        },
{
    let mut k: usize = nl.len();
    while k > 0
        invariant
            k <= nl@.len(),
            net_of_pin(nl@, nl@.len(), pr@) == net_of_pin(nl@, k as nat, pr@),
        decreases k,
    {
        let pins = nl.value_at(k - 1);
        if pin_on_net(&pins.pins, pr) {
            return Some(nl.key_at(k - 1));
        }
        k -= 1;
    }
    None
}

fn push_copper(
    out: &mut Vec<(String, NetFeature)>,
    layer: String,
    net: Option<NetId>,
    f: Feature,
)
    ensures
        copper_list(final(out)@) == copper_list(old(out)@).push(
            (layer@, NetFeatureV { net: feature::opt_net(net), feature: f@ }),
        ),
{
    let ghost before = copper_list(out@);
    let ghost item = (layer@, NetFeatureV { net: feature::opt_net(net), feature: f@ });
    out.push((layer, NetFeature::new(net, f)));
    assert(copper_list(out@) =~= before.push(item));
}

fn add_trace(out: &mut Vec<(String, NetFeature)>, t: &Trace, cu: &Vec<&Slab>)
    requires
        t@.path.len() > 0,
    ensures
        copper_list(final(out)@) == copper_list(old(out)@) + trace_copper(
            t@,
            stackup::slab_refs(cu@),
        ),
{
    let ghost before = copper_list(out@);
    let i = index_of_name(cu, t.layer.as_str());
    if i < cu.len() {
        assert(stackup::slab_refs(cu@)[i as int].z == cu@[i as int].z);
        let s = Shape2D::trace(clone_points(&t.path), t.width);
        push_copper(
            out,
            t.layer.clone(),
            Some(t.net.duplicate()),
            Feature::prism(Role::Conductor, s, cu[i].z),
        );
    }
    assert(copper_list(out@) =~= before + trace_copper(t@, stackup::slab_refs(cu@)));
}

fn add_via(out: &mut Vec<(String, NetFeature)>, v: &Via, cu: &Vec<&Slab>)
    ensures
        copper_list(final(out)@) == copper_list(old(out)@) + via_copper(
            v@,
            stackup::slab_refs(cu@),
        ),
{
    let ghost before = copper_list(out@);
    let ghost want = via_copper(v@, stackup::slab_refs(cu@));
    let slabs = v.spanned_slabs(cu);
    assert(stackup::slab_refs(slabs@).len() == slabs.len());
    let mut i: usize = 0;
    assert(before + want.take(0) =~= before);
    while i < slabs.len()
        invariant
            i <= slabs.len(),
            want == via_copper(v@, stackup::slab_refs(cu@)),
            want.len() == slabs.len(),
            stackup::slab_refs(slabs@) == layer::spanned_of(v@, stackup::slab_refs(cu@)),
            copper_list(out@) == before + want.take(i as int),
        decreases slabs.len() - i,
    {
        let s = slabs[i];
        assert(stackup::slab_refs(slabs@)[i as int] == s@);
        let disc = Shape2D::disc(v.at, v.pad / 2);
        push_copper(
            out,
            s.name.clone(),
            Some(v.net.duplicate()),
            Feature::prism(Role::Conductor, disc, s.z),
        );
        assert(before + want.take(i + 1) =~= (before + want.take(i as int)).push(want[i as int]));
        i += 1;
    }
    assert(want.take(i as int) =~= want);
}

fn duplicate_net(net: &Option<NetId>) -> (r: Option<NetId>)
    ensures
        feature::opt_net(r) == feature::opt_net(*net),
{
    match net {
        Some(n) => Some(n.duplicate()),
        None => None,
    }
}

fn add_pin(
    out: &mut Vec<(String, NetFeature)>,
    c: &Component,
    pin: &PinDef,
    nl: &Netlist,
    su: &Stackup,
    cu: &Vec<&Slab>,
    netted: bool,
)
    requires
        geometry::pad_placeable(pin@, c@),
        stackup::slab_refs(cu@) == stackup::copper_of(su@),
    ensures
        copper_list(final(out)@) == copper_list(old(out)@) + pin_copper(
            c@,
            pin@,
            nl@,
            su@,
            netted,
        ),
{
    let ghost before = copper_list(out@);
    let pr = PinRef::new(&c.id, pin.number.as_str());
    let net: Option<NetId> = match find_net(nl, &pr) {
        Some(n) => Some(NetId::new(n.as_str())),
        None => None,
    };
    let ghost on = feature::opt_net(net);
    assert(on == net_of_pin(nl@, nl@.len(), pr@));
    if net.is_some() != netted {
        assert(before + pin_copper(c@, pin@, nl@, su@, netted) =~= before);
        return;
    }
    let fs = pin.pad_features(c, su);
    let ghost v = feature::feature_views(fs@);
    let ghost slabs = stackup::slab_refs(cu@);
    let mut i: usize = 0;
    assert(before + conductors_from(v, 0, on, slabs) =~= before);
    while i < fs.len()
        invariant
            i <= fs.len(),
            v == feature::feature_views(fs@),
            slabs == stackup::slab_refs(cu@),
            on == feature::opt_net(net),
            copper_list(out@) == before + conductors_from(v, i as nat, on, slabs),
        decreases fs.len() - i,
    {
        let f = &fs[i];
        assert(v[i as int] == f@);
        let ghost done = conductors_from(v, i as nat, on, slabs);
        if f.role == Role::Conductor {
            let (_s, z) = f.prism_parts();
            let at = index_of_z(cu, *z);
            if at < cu.len() {
                assert(slabs[at as int].name == cu@[at as int].name@);
                push_copper(out, cu[at].name.clone(), duplicate_net(&net), f.clone());
                let ghost one = (
                    slabs[at as int].name,
                    NetFeatureV { net: on, feature: f@ },
                );
                assert((before + done).push(one) =~= before + done.push(one));
            }
        }
        i += 1;
    }
}

fn add_component(
    out: &mut Vec<(String, NetFeature)>,
    c: &Component,
    lib: &PartLib,
    nl: &Netlist,
    su: &Stackup,
    cu: &Vec<&Slab>,
    netted: bool,
)
    requires
        component_placeable(c@, lib@),
        stackup::slab_refs(cu@) == stackup::copper_of(su@),
    ensures
        copper_list(final(out)@) == copper_list(old(out)@) + component_copper(
            c@,
            lib@,
            nl@,
            su@,
            netted,
        ),
{
    let ghost before = copper_list(out@);
    let def = match lib.get(c.part.as_str()) {
        Some(d) => d,
        None => {
            assert(before + component_copper(c@, lib@, nl@, su@, netted) =~= before);
            return;
        },
    };
    let ghost pins = def@.pins;
    let mut i: usize = 0;
    assert(before + pins_copper(c@, pins, 0, nl@, su@, netted) =~= before);
    while i < def.pins.len()
        invariant
            i <= def.pins.len(),
            pins == def@.pins,
            pins.len() == def.pins.len(),
            stackup::slab_refs(cu@) == stackup::copper_of(su@),
            forall|k: int|
                0 <= k < pins.len() ==> geometry::pad_placeable(#[trigger] pins[k], c@),
            copper_list(out@) == before + pins_copper(c@, pins, i as nat, nl@, su@, netted),
        decreases def.pins.len() - i,
    {
        let pin = &def.pins[i];
        assert(pins[i as int] == pin@);
        let ghost done = pins_copper(c@, pins, i as nat, nl@, su@, netted);
        add_pin(out, c, pin, nl, su, cu, netted);
        assert(before + done + pin_copper(c@, pin@, nl@, su@, netted) =~= before + (done + pin_copper(
            c@,
            pin@,
            nl@,
            su@,
            netted,
        )));
        i += 1;
    }
}

fn add_components(
    out: &mut Vec<(String, NetFeature)>,
    doc: &Doc,
    lib: &PartLib,
    nl: &Netlist,
    su: &Stackup,
    cu: &Vec<&Slab>,
    netted: bool,
)
    requires
        copper_placeable(doc@, lib@),
        stackup::slab_refs(cu@) == stackup::copper_of(su@),
    ensures
        copper_list(final(out)@) == copper_list(old(out)@) + components_copper(
            doc@,
            doc@.components.len(),
            lib@,
            nl@,
            su@,
            netted,
        ),
{
    let ghost d = doc@;
    let ghost before = copper_list(out@);
    let mut k: usize = 0;
    assert(before + components_copper(d, 0, lib@, nl@, su@, netted) =~= before);
    while k < doc.components.len()
        invariant
            k <= d.components.len(),
            d == doc@,
            stackup::slab_refs(cu@) == stackup::copper_of(su@),
            copper_placeable(d, lib@),
            copper_list(out@) == before + components_copper(
                d,
                k as nat,
                lib@,
                nl@,
                su@,
                netted,
            ),
        decreases d.components.len() - k,
    {
        let c = doc.components.value_at(k);
        let ghost done = components_copper(d, k as nat, lib@, nl@, su@, netted);
        let ghost more = component_copper(c@, lib@, nl@, su@, netted);
        assert(d.components[k as int].1 == c@);
        add_component(out, c, lib, nl, su, cu, netted);
        assert(before + done + more =~= before + (done + more));
        k += 1;
    }
}

/// The routed and placed copper of a document, each feature on one slab and paired with
/// that slab's name. A trace whose slab is unknown gives nothing.
pub fn net_features(doc: &Doc, lib: &PartLib, netlist: &Netlist, su: &Stackup) -> (r: Vec<
    (String, NetFeature),
>)
    requires
        copper_placeable(doc@, lib@),
    ensures
        copper_list(r@) == copper_of_doc(doc@, lib@, netlist@, su@),
{
    let cu = su.copper_slabs();
    let ghost d = doc@;
    let mut out: Vec<(String, NetFeature)> = Vec::new();
    let mut i: usize = 0;
    assert(copper_list(out@) =~= Seq::empty());
    while i < doc.traces.len()
        invariant
            i <= doc@.traces.len(),
            d == doc@,
            stackup::slab_refs(cu@) == stackup::copper_of(su@),
            copper_placeable(d, lib@),
            copper_list(out@) == traces_copper(d, i as nat, su@),
        decreases doc@.traces.len() - i,
    {
        add_trace(&mut out, doc.traces.value_at(i), &cu);
        i += 1;
    }
    let ghost ts = traces_copper(d, d.traces.len(), su@);
    let mut j: usize = 0;
    assert(ts + vias_copper(d, 0, su@) =~= ts);
    while j < doc.vias.len()
        invariant
            j <= doc@.vias.len(),
            d == doc@,
            stackup::slab_refs(cu@) == stackup::copper_of(su@),
            copper_list(out@) == ts + vias_copper(d, j as nat, su@),
        decreases doc@.vias.len() - j,
    {
        let ghost done = vias_copper(d, j as nat, su@);
        add_via(&mut out, doc.vias.value_at(j), &cu);
        assert(ts + done + via_copper(d.vias[j as int].1, stackup::copper_of(su@)) =~= ts + (done
            + via_copper(d.vias[j as int].1, stackup::copper_of(su@))));
        j += 1;
    }
    add_components(&mut out, doc, lib, netlist, su, &cu, true);
    out
}

/// The solid copper of a document: what is on nets, then the pads on none.
fn solid_features(doc: &Doc, lib: &PartLib, netlist: &Netlist, su: &Stackup) -> (r: Vec<
    (String, NetFeature),
>)
    requires
        copper_placeable(doc@, lib@),
    ensures
        copper_list(r@) == solid_of_doc(doc@, lib@, netlist@, su@),
{
    let mut out = net_features(doc, lib, netlist, su);
    let cu = su.copper_slabs();
    add_components(&mut out, doc, lib, netlist, su, &cu, false);
    out
}

// ---------------------------------------------------------------------------
// Pours.
// ---------------------------------------------------------------------------

/// A pour to be filled: its net and height, its outline, and the foreign copper on its
/// slab grown by the clearance, which the fill leaves out.
#[derive(Debug, PartialEq, Eq)]
pub struct PourJob {
    pub net: NetId,
    pub z: ZRange,
    pub outline: Shape2D,
    pub obstacles: Vec<Shape2D>,
}

/// A pour to be filled as a value.
#[verifier::ext_equal]
pub struct PourJobV {
    pub net: Seq<char>,
    pub z: ZRange,
    pub outline: ShapeV,
    pub obstacles: Seq<ShapeV>,
}

impl View for PourJob {
    type V = PourJobV;

    open spec fn view(&self) -> PourJobV {
        PourJobV {
            net: self.net@,
            z: self.z,
            outline: self.outline@,
            obstacles: geometry::shape_views(self.obstacles@),
        }
    }
}

/// The values of a list of pours.
pub open spec fn job_views(v: Seq<PourJob>) -> Seq<PourJobV> {
    Seq::new(v.len(), |i: int| v[i]@)
}

/// The height of the copper slab of that name.
pub open spec fn copper_height(su: Seq<SlabV>, name: Seq<char>) -> Option<ZRange> {
    let cu = stackup::copper_of(su);
    let i = stackup::slab_index(cu, name);
    if i < cu.len() {
        Some(cu[i].z)
    } else {
        None
    }
}

/// The foreign copper on the slab among the first `k`, grown by the clearance.
pub open spec fn obstacles_of(
    copper: CopperList,
    k: nat,
    layer: Seq<char>,
    net: Seq<char>,
    clr: int,
) -> Seq<ShapeV>
    decreases k,
{
    if k == 0 {
        Seq::empty()
    } else {
        let done = obstacles_of(copper, (k - 1) as nat, layer, net, clr);
        let (l, f) = copper[k - 1];
        if l == layer && f.net != Some(net) {
            done.push(shape::inflate(f.feature.shape, clr))
        } else {
            done
        }
    }
}

/// The pour of a region: a conductor region with a net on a copper slab.
pub open spec fn job_of(
    r: RegionV,
    copper: CopperList,
    su: Seq<SlabV>,
    clr: int,
) -> Option<PourJobV> {
    match (r.net, copper_height(su, r.layer)) {
        (Some(net), Some(z)) if r.role == Role::Conductor => Some(
            PourJobV {
                net,
                z,
                outline: r.shape,
                obstacles: obstacles_of(copper, copper.len(), r.layer, net, clr),
            },
        ),
        _ => None,
    }
}

/// The pours of the first `k` regions.
pub open spec fn jobs_of(
    rs: Seq<RegionV>,
    k: nat,
    copper: CopperList,
    su: Seq<SlabV>,
    clr: int,
) -> Seq<PourJobV>
    decreases k,
{
    if k == 0 {
        Seq::empty()
    } else {
        let done = jobs_of(rs, (k - 1) as nat, copper, su, clr);
        match job_of(rs[k - 1], copper, su, clr) {
            Some(j) => done.push(j),
            None => done,
        }
    }
}

/// The copper can be grown by the clearance.
pub open spec fn growable(copper: CopperList, clr: int) -> bool {
    forall|i: int|
        0 <= i < copper.len() ==> {
            let s = (#[trigger] copper[i]).1.feature.shape;
            !(s is Area) && i64::MIN <= shape::radius_of(s) + clr <= i64::MAX
        }
}

/// The height of the copper slab of that name.
fn region_copper_z(su: &Stackup, name: &str) -> (r: Option<ZRange>)
    ensures
        r == copper_height(su@, name@),
{
    let cu = su.copper_slabs();
    let i = index_of_name(&cu, name);
    if i < cu.len() {
        assert(stackup::slab_refs(cu@)[i as int].z == cu@[i as int].z);
        Some(cu[i].z)
    } else {
        None
    }
}

fn foreign(nf: &NetFeature, net: &str) -> (r: bool)
    ensures
        r == (nf@.net != Some(net@)),
{
    match &nf.net {
        Some(n) => !str_eq(n.as_str(), net),
        None => true,
    }
}

fn grow_obstacles(copper: &Vec<(String, NetFeature)>, layer: &str, net: &str, clr: Nm) -> (r: Vec<
    Shape2D,
>)
    requires
        growable(copper_list(copper@), clr as int),
    ensures
        geometry::shape_views(r@) == obstacles_of(
            copper_list(copper@),
            copper@.len(),
            layer@,
            net@,
            clr as int,
        ),
{
    let ghost v = copper_list(copper@);
    let mut out: Vec<Shape2D> = Vec::new();
    let mut i: usize = 0;
    assert(geometry::shape_views(out@) =~= Seq::empty());
    while i < copper.len()
        invariant
            i <= copper.len(),
            v == copper_list(copper@),
            growable(v, clr as int),
            geometry::shape_views(out@) == obstacles_of(v, i as nat, layer@, net@, clr as int),
        decreases copper.len() - i,
    {
        let (l, nf) = &copper[i];
        assert(v[i as int] == (l@, nf@));
        if str_eq(l.as_str(), layer) && foreign(nf, net) {
            let (s, _z) = nf.feature.prism_parts();
            let g = s.inflated(clr);
            let ghost done = geometry::shape_views(out@);
            let ghost one = g@;
            out.push(g);
            assert(geometry::shape_views(out@) =~= done.push(one));
        }
        i += 1;
    }
    out
}

/// The pours to be filled: each conductor region with a net on a copper slab, with the
/// foreign copper that its fill leaves out. Copper of its own net is what it connects to.
pub fn pour_jobs(
    regions: &Vec<RegionDecl>,
    copper: &Vec<(String, NetFeature)>,
    rules: &DesignRules,
    su: &Stackup,
) -> (r: Vec<PourJob>)
    requires
        growable(copper_list(copper@), rules.min_clearance as int),
    ensures
        job_views(r@) == jobs_of(
            ir::region_views(regions@),
            regions@.len(),
            copper_list(copper@),
            su@,
            rules.min_clearance as int,
        ),
{
    let ghost rs = ir::region_views(regions@);
    let ghost v = copper_list(copper@);
    let ghost clr = rules.min_clearance as int;
    let mut out: Vec<PourJob> = Vec::new();
    let mut i: usize = 0;
    assert(job_views(out@) =~= Seq::empty());
    while i < regions.len()
        invariant
            i <= regions.len(),
            rs == ir::region_views(regions@),
            v == copper_list(copper@),
            clr == rules.min_clearance,
            growable(v, clr),
            job_views(out@) == jobs_of(rs, i as nat, v, su@, clr),
        decreases regions.len() - i,
    {
        let r = &regions[i];
        assert(rs[i as int] == r@);
        if r.role == Role::Conductor {
            if let Some(name) = &r.net {
                if let Some(z) = region_copper_z(su, r.layer.as_str()) {
                    let obstacles = grow_obstacles(
                        copper,
                        r.layer.as_str(),
                        name.as_str(),
                        rules.min_clearance,
                    );
                    let ghost done = job_views(out@);
                    let job = PourJob {
                        net: NetId::new(name.as_str()),
                        z,
                        outline: r.shape.clone(),
                        obstacles,
                    };
                    let ghost one = job@;
                    out.push(job);
                    assert(v.len() == copper@.len());
                    assert(job_of(rs[i as int], v, su@, clr) == Some(one));
                    assert(job_views(out@) =~= done.push(one));
                }
            }
        }
        i += 1;
    }
    out
}

// ---------------------------------------------------------------------------
// The whole world.
// ---------------------------------------------------------------------------

/// What the generative program contributes: its own features, or the reason why it has
/// none; its regions; the reference designators and labels by component; and the drawn
/// strings.
#[derive(Debug, PartialEq, Eq)]
pub struct SourceGeometry {
    pub features: Result<Vec<NetFeature>, String>,
    pub regions: Vec<RegionDecl>,
    pub refdes: NameMap<String>,
    pub labels: NameMap<String>,
    pub font: Lettering,
}

/// The contribution of the program as a value.
#[verifier::ext_equal]
pub struct SourceV {
    pub features: Result<Seq<NetFeatureV>, Seq<char>>,
    pub regions: Seq<RegionV>,
    pub refdes: Seq<(Seq<char>, Seq<char>)>,
    pub labels: Seq<(Seq<char>, Seq<char>)>,
    pub font: Seq<(Seq<char>, Nm, InkV)>,
}

impl View for SourceGeometry {
    type V = SourceV;

    open spec fn view(&self) -> SourceV {
        SourceV {
            features: match self.features {
                Ok(v) => Ok(feature::net_feature_views(v@)),
                Err(e) => Err(e@),
            },
            regions: ir::region_views(self.regions@),
            refdes: self.refdes@,
            labels: self.labels@,
            font: self.font@,
        }
    }
}

/// A name's text, empty when there is none.
pub open spec fn text_of(m: Seq<(Seq<char>, Seq<char>)>, k: Seq<char>) -> Seq<char> {
    match names::lookup(m, k) {
        Some(s) => s,
        None => Seq::empty(),
    }
}

/// Features without a net.
pub open spec fn netless(fs: Seq<FeatureV>) -> Seq<NetFeatureV> {
    Seq::new(fs.len(), |i: int| feature::on_no_net(fs[i]))
}

/// The features among the first `k` that are no conductors, without a net.
pub open spec fn non_conductors(fs: Seq<FeatureV>, k: nat) -> Seq<NetFeatureV>
    decreases k,
{
    if k == 0 {
        Seq::empty()
    } else {
        let done = non_conductors(fs, (k - 1) as nat);
        if fs[k - 1].role != Role::Conductor {
            done.push(feature::on_no_net(fs[k - 1]))
        } else {
            done
        }
    }
}

/// The drills and mask openings of the first `k` pins.
pub open spec fn pins_voids(c: ComponentV, pins: Seq<PinV>, k: nat, su: Seq<SlabV>) -> Seq<
    NetFeatureV,
>
    decreases k,
{
    if k == 0 {
        Seq::empty()
    } else {
        let fs = geometry::pad_features_of(pins[k - 1], c, su);
        pins_voids(c, pins, (k - 1) as nat, su) + non_conductors(fs, fs.len())
    }
}

/// Everything of a component but its copper: drills and mask openings, graphics, texts.
pub open spec fn component_rest(
    key: Seq<char>,
    c: ComponentV,
    lib: Seq<(Seq<char>, PartV)>,
    su: Seq<SlabV>,
    src: SourceV,
) -> Seq<NetFeatureV> {
    match names::lookup(lib, c.part) {
        Some(def) => pins_voids(c, def.pins, def.pins.len(), su) + netless(
            geometry::graphics_prefix(def.graphics, def.graphics.len(), c, su),
        ) + netless(
            geometry::texts_prefix(
                def.texts,
                def.texts.len(),
                c,
                su,
                text_of(src.refdes, key),
                text_of(src.labels, key),
                src.font,
            ),
        ),
        None => Seq::empty(),
    }
}

/// Everything but copper of the first `k` components.
pub open spec fn components_rest(
    d: DocV,
    k: nat,
    lib: Seq<(Seq<char>, PartV)>,
    su: Seq<SlabV>,
    src: SourceV,
) -> Seq<NetFeatureV>
    decreases k,
{
    if k == 0 {
        Seq::empty()
    } else {
        components_rest(d, (k - 1) as nat, lib, su, src) + component_rest(
            d.components[k - 1].0,
            d.components[k - 1].1,
            lib,
            su,
            src,
        )
    }
}

/// The plated drills of the vias, through the whole stackup.
pub open spec fn via_drills(d: DocV, su: Seq<SlabV>) -> Seq<NetFeatureV> {
    match stackup::full_z_of(su) {
        Some(z) => Seq::new(
            d.vias.len(),
            |i: int|
                feature::on_no_net(
                    FeatureV {
                        material: Some("copper"@),
                        ..feature::prism_of(
                            Role::Void,
                            shape::disc_of(
                                d.vias[i].1.at,
                                path::half(d.vias[i].1.drill as int),
                            ),
                            z,
                        )
                    },
                ),
        ),
        None => Seq::empty(),
    }
}

/// The copper without the names of its slabs.
pub open spec fn unnamed(copper: CopperList) -> Seq<NetFeatureV> {
    Seq::new(copper.len(), |i: int| copper[i].1)
}

/// The filled pours.
pub open spec fn filled(jobs: Seq<PourJobV>, fills: Seq<Seq<Seq<Point>>>) -> Seq<NetFeatureV> {
    Seq::new(
        jobs.len(),
        |i: int|
            feature::on_net(
                jobs[i].net,
                feature::prism_of(
                    Role::Conductor,
                    ShapeV::Area { rings: fills[i] },
                    jobs[i].z,
                ),
            ),
    )
}

/// The pours of a document. Their fills keep off all solid copper that is not on their net,
/// the pads on no net among it.
pub open spec fn doc_jobs(
    d: DocV,
    lib: Seq<(Seq<char>, PartV)>,
    nl: NetlistV,
    clr: int,
    su: Seq<SlabV>,
    regions: Seq<RegionV>,
) -> Seq<PourJobV> {
    jobs_of(regions, regions.len(), solid_of_doc(d, lib, nl, su), su, clr)
}

/// The world of a document: the program's own features, the drills of the vias, the rest
/// of the components, the solid copper (that of pads on no net included), and the filled
/// pours.
pub open spec fn world_of(
    d: DocV,
    lib: Seq<(Seq<char>, PartV)>,
    nl: NetlistV,
    clr: int,
    su: Seq<SlabV>,
    src: SourceV,
    fills: Seq<Seq<Seq<Point>>>,
) -> Result<Seq<NetFeatureV>, Seq<char>> {
    match src.features {
        Err(e) => Err(e),
        Ok(own) => Ok(
            own + via_drills(d, su) + components_rest(d, d.components.len(), lib, su, src)
                + unnamed(solid_of_doc(d, lib, nl, su)) + filled(
                doc_jobs(d, lib, nl, clr, su, src.regions),
                fills,
            ),
        ),
    }
}

/// The graphics and texts of a component can be placed.
pub open spec fn ink_placeable(
    key: Seq<char>,
    c: ComponentV,
    lib: Seq<(Seq<char>, PartV)>,
    src: SourceV,
) -> bool {
    match names::lookup(lib, c.part) {
        Some(def) => {
            &&& forall|i: int|
                0 <= i < def.graphics.len() ==> geometry::shape_placeable(
                    c,
                    (#[trigger] def.graphics[i]).shape,
                )
            &&& geometry::texts_placeable(
                def,
                c,
                text_of(src.refdes, key),
                text_of(src.labels, key),
                src.font,
            )
        },
        None => true,
    }
}

/// Everything of the document can be placed, and its copper grown for the pours.
pub open spec fn world_ready(
    d: DocV,
    lib: Seq<(Seq<char>, PartV)>,
    nl: NetlistV,
    clr: int,
    su: Seq<SlabV>,
    src: SourceV,
) -> bool {
    &&& copper_placeable(d, lib)
    &&& growable(solid_of_doc(d, lib, nl, su), clr)
    &&& forall|i: int|
        0 <= i < d.components.len() ==> ink_placeable(
            (#[trigger] d.components[i]).0,
            d.components[i].1,
            lib,
            src,
        )
}

/// The values of a list of regions.
pub open spec fn fill_views(v: Seq<Region>) -> Seq<Seq<Seq<Point>>> {
    Seq::new(v.len(), |i: int| v[i]@)
}

fn push_feature(out: &mut Vec<NetFeature>, f: NetFeature)
    ensures
        feature::net_feature_views(final(out)@) == feature::net_feature_views(old(out)@).push(
            f@,
        ),
{
    let ghost before = feature::net_feature_views(out@);
    let ghost one = f@;
    out.push(f);
    assert(feature::net_feature_views(out@) =~= before.push(one));
}

fn add_netless(out: &mut Vec<NetFeature>, fs: &Vec<Feature>)
    ensures
        feature::net_feature_views(final(out)@) == feature::net_feature_views(old(out)@)
            + netless(feature::feature_views(fs@)),
{
    let ghost before = feature::net_feature_views(out@);
    let ghost v = feature::feature_views(fs@);
    let ghost want = netless(v);
    let mut i: usize = 0;
    assert(before + want.take(0) =~= before);
    while i < fs.len()
        invariant
            i <= fs.len(),
            v == feature::feature_views(fs@),
            want == netless(v),
            feature::net_feature_views(out@) == before + want.take(i as int),
        decreases fs.len() - i,
    {
        assert(v[i as int] == fs@[i as int]@);
        push_feature(out, NetFeature::netless(fs[i].clone()));
        assert(before + want.take(i + 1) =~= (before + want.take(i as int)).push(want[i as int]));
        i += 1;
    }
    assert(want.take(i as int) =~= want);
}

fn add_voids(out: &mut Vec<NetFeature>, fs: &Vec<Feature>)
    ensures
        feature::net_feature_views(final(out)@) == feature::net_feature_views(old(out)@)
            + non_conductors(feature::feature_views(fs@), fs@.len()),
{
    let ghost before = feature::net_feature_views(out@);
    let ghost v = feature::feature_views(fs@);
    let mut i: usize = 0;
    assert(before + non_conductors(v, 0) =~= before);
    while i < fs.len()
        invariant
            i <= fs.len(),
            v == feature::feature_views(fs@),
            feature::net_feature_views(out@) == before + non_conductors(v, i as nat),
        decreases fs.len() - i,
    {
        assert(v[i as int] == fs@[i as int]@);
        let ghost done = non_conductors(v, i as nat);
        if fs[i].role != Role::Conductor {
            push_feature(out, NetFeature::netless(fs[i].clone()));
            assert((before + done).push(feature::on_no_net(v[i as int])) =~= before + done.push(
                feature::on_no_net(v[i as int]),
            ));
        }
        i += 1;
    }
}

fn text_or_none<'a>(m: &'a NameMap<String>, k: &str) -> (r: &'a str)
    ensures
        r@ == text_of(m@, k@),
{
    match m.get(k) {
        Some(s) => s.as_str(),
        None => {
            proof {
                reveal_strlit("");
                assert(""@ =~= Seq::empty());
            }
            ""
        },
    }
}

fn add_component_rest(
    out: &mut Vec<NetFeature>,
    key: &String,
    c: &Component,
    lib: &PartLib,
    su: &Stackup,
    src: &SourceGeometry,
)
    requires
        component_placeable(c@, lib@),
        ink_placeable(key@, c@, lib@, src@),
    ensures
        feature::net_feature_views(final(out)@) == feature::net_feature_views(old(out)@)
            + component_rest(key@, c@, lib@, su@, src@),
{
    let ghost before = feature::net_feature_views(out@);
    let def = match lib.get(c.part.as_str()) {
        Some(d) => d,
        None => {
            assert(before + component_rest(key@, c@, lib@, su@, src@) =~= before);
            return;
        },
    };
    let ghost pins = def@.pins;
    let mut i: usize = 0;
    assert(before + pins_voids(c@, pins, 0, su@) =~= before);
    while i < def.pins.len()
        invariant
            i <= def.pins.len(),
            pins == def@.pins,
            pins.len() == def.pins.len(),
            forall|k: int|
                0 <= k < pins.len() ==> geometry::pad_placeable(#[trigger] pins[k], c@),
            feature::net_feature_views(out@) == before + pins_voids(c@, pins, i as nat, su@),
        decreases def.pins.len() - i,
    {
        let pin = &def.pins[i];
        assert(pins[i as int] == pin@);
        let ghost done = pins_voids(c@, pins, i as nat, su@);
        let fs = pin.pad_features(c, su);
        add_voids(out, &fs);
        assert(feature::feature_views(fs@).len() == fs@.len());
        let ghost more = non_conductors(feature::feature_views(fs@), fs@.len());
        assert(before + done + more =~= before + (done + more));
        i += 1;
    }
    let ghost voids = pins_voids(c@, pins, pins.len(), su@);
    let gs = graphic_features(def, c, su);
    add_netless(out, &gs);
    let rd = text_or_none(&src.refdes, key.as_str());
    let lbl = text_or_none(&src.labels, key.as_str());
    let ts = text_features(def, c, su, rd, lbl, &src.font);
    add_netless(out, &ts);
    assert(feature::net_feature_views(out@) =~= before + component_rest(
        key@,
        c@,
        lib@,
        su@,
        src@,
    ));
}

fn add_drills(out: &mut Vec<NetFeature>, doc: &Doc, su: &Stackup)
    ensures
        feature::net_feature_views(final(out)@) == feature::net_feature_views(old(out)@)
            + via_drills(doc@, su@),
{
    let ghost before = feature::net_feature_views(out@);
    let ghost d = doc@;
    let ghost want = via_drills(d, su@);
    if let Some(z) = su.full_z() {
        let mut i: usize = 0;
        assert(before + want.take(0) =~= before);
        while i < doc.vias.len()
            invariant
                i <= doc@.vias.len(),
                d == doc@,
                stackup::full_z_of(su@) == Some(z),
                want == via_drills(d, su@),
                feature::net_feature_views(out@) == before + want.take(i as int),
            decreases doc@.vias.len() - i,
        {
            let v = doc.vias.value_at(i);
            assert(d.vias[i as int].1 == v@);
            let f = Feature::prism(Role::Void, Shape2D::disc(v.at, v.drill / 2), z).with_material(
                Material::named("copper"),
            );
            push_feature(out, NetFeature::netless(f));
            assert(before + want.take(i + 1) =~= (before + want.take(i as int)).push(
                want[i as int],
            ));
            i += 1;
        }
        assert(want.take(i as int) =~= want);
    } else {
        assert(before + want =~= before);
    }
}

fn add_copper(out: &mut Vec<NetFeature>, copper: &Vec<(String, NetFeature)>)
    ensures
        feature::net_feature_views(final(out)@) == feature::net_feature_views(old(out)@)
            + unnamed(copper_list(copper@)),
{
    let ghost before = feature::net_feature_views(out@);
    let ghost want = unnamed(copper_list(copper@));
    let mut i: usize = 0;
    assert(before + want.take(0) =~= before);
    while i < copper.len()
        invariant
            i <= copper.len(),
            want == unnamed(copper_list(copper@)),
            feature::net_feature_views(out@) == before + want.take(i as int),
        decreases copper.len() - i,
    {
        push_feature(out, copper[i].1.clone());
        assert(before + want.take(i + 1) =~= (before + want.take(i as int)).push(want[i as int]));
        i += 1;
    }
    assert(want.take(i as int) =~= want);
}

fn add_pours(out: &mut Vec<NetFeature>, jobs: &Vec<PourJob>, fills: &Vec<Region>)
    requires
        jobs.len() == fills.len(),
    ensures
        feature::net_feature_views(final(out)@) == feature::net_feature_views(old(out)@) + filled(
            job_views(jobs@),
            fill_views(fills@),
        ),
{
    let ghost before = feature::net_feature_views(out@);
    let ghost want = filled(job_views(jobs@), fill_views(fills@));
    let mut i: usize = 0;
    assert(before + want.take(0) =~= before);
    while i < jobs.len()
        invariant
            i <= jobs.len(),
            jobs.len() == fills.len(),
            want == filled(job_views(jobs@), fill_views(fills@)),
            feature::net_feature_views(out@) == before + want.take(i as int),
        decreases jobs.len() - i,
    {
        let j = &jobs[i];
        assert(job_views(jobs@)[i as int] == j@);
        let f = Feature::prism(Role::Conductor, Shape2D::Area { region: fills[i].clone() }, j.z);
        push_feature(out, NetFeature::new(Some(j.net.duplicate()), f));
        assert(before + want.take(i + 1) =~= (before + want.take(i as int)).push(want[i as int]));
        i += 1;
    }
    assert(want.take(i as int) =~= want);
}

/// The pours of a document that are to be filled.
pub fn world_jobs(
    doc: &Doc,
    lib: &PartLib,
    netlist: &Netlist,
    rules: &DesignRules,
    su: &Stackup,
    src: &SourceGeometry,
) -> (r: Vec<PourJob>)
    requires
        world_ready(doc@, lib@, netlist@, rules.min_clearance as int, su@, src@),
    ensures
        job_views(r@) == doc_jobs(
            doc@,
            lib@,
            netlist@,
            rules.min_clearance as int,
            su@,
            src@.regions,
        ),
{
    let copper = solid_features(doc, lib, netlist, su);
    pour_jobs(&src.regions, &copper, rules, su)
}

/// Everything physical of a document, each feature with the net it carries. `fills` are the
/// fills of the pours of [`world_jobs`], in order. Fails only where the program's own
/// geometry failed.
pub fn world_features(
    doc: &Doc,
    lib: &PartLib,
    netlist: &Netlist,
    rules: &DesignRules,
    su: &Stackup,
    src: &SourceGeometry,
    fills: &Vec<Region>,
) -> (r: Result<Vec<NetFeature>, String>)
    requires
        world_ready(doc@, lib@, netlist@, rules.min_clearance as int, su@, src@),
        fills.len() == doc_jobs(
            doc@,
            lib@,
            netlist@,
            rules.min_clearance as int,
            su@,
            src@.regions,
        ).len(),
    ensures
        match (
            r,
            world_of(
                doc@,
                lib@,
                netlist@,
                rules.min_clearance as int,
                su@,
                src@,
                fill_views(fills@),
            ),
        ) {
            (Ok(v), Ok(w)) => feature::net_feature_views(v@) == w,
            (Err(e), Err(m)) => e@ == m,
            _ => false,
        },
{
    let ghost clr = rules.min_clearance as int;
    let mut out: Vec<NetFeature> = Vec::new();
    assert(feature::net_feature_views(out@) =~= Seq::empty());
    let own = match &src.features {
        Ok(v) => v,
        Err(e) => {
            return Err(e.clone());
        },
    };
    let ghost ov = feature::net_feature_views(own@);
    let mut i: usize = 0;
    assert(ov.take(0) =~= Seq::empty());
    while i < own.len()
        invariant
            i <= own.len(),
            ov == feature::net_feature_views(own@),
            feature::net_feature_views(out@) == ov.take(i as int),
        decreases own.len() - i,
    {
        push_feature(&mut out, own[i].clone());
        assert(ov.take(i + 1) =~= ov.take(i as int).push(ov[i as int]));
        i += 1;
    }
    assert(ov.take(i as int) =~= ov);
    let copper = solid_features(doc, lib, netlist, su);
    add_drills(&mut out, doc, su);
    let ghost base = ov + via_drills(doc@, su@);
    let mut k: usize = 0;
    assert(base + components_rest(doc@, 0, lib@, su@, src@) =~= base);
    while k < doc.components.len()
        invariant
            k <= doc@.components.len(),
            world_ready(doc@, lib@, netlist@, clr, su@, src@),
            feature::net_feature_views(out@) == base + components_rest(
                doc@,
                k as nat,
                lib@,
                su@,
                src@,
            ),
        decreases doc@.components.len() - k,
    {
        let key = doc.components.key_at(k);
        let c = doc.components.value_at(k);
        let ghost done = components_rest(doc@, k as nat, lib@, su@, src@);
        let ghost more = component_rest(key@, c@, lib@, su@, src@);
        assert(doc@.components[k as int] == (key@, c@));
        assert(component_placeable(doc@.components[k as int].1, lib@));
        add_component_rest(&mut out, key, c, lib, su, src);
        assert(base + done + more =~= base + (done + more));
        k += 1;
    }
    add_copper(&mut out, &copper);
    let jobs = pour_jobs(&src.regions, &copper, rules, su);
    assert(job_views(jobs@).len() == jobs.len());
    add_pours(&mut out, &jobs, fills);
    Ok(out)
}

// ---------------------------------------------------------------------------
// Views of the world.
// ---------------------------------------------------------------------------

/// A filled pour: its net, the name of its copper slab, and its fill.
#[derive(Debug, PartialEq, Eq)]
pub struct Pour {
    pub net: NetId,
    pub layer: String,
    pub fill: Region,
}

/// A filled pour as a value.
#[verifier::ext_equal]
pub struct PourV {
    pub net: Seq<char>,
    pub layer: Seq<char>,
    pub fill: Seq<Seq<Point>>,
}

impl View for Pour {
    type V = PourV;

    open spec fn view(&self) -> PourV {
        PourV { net: self.net@, layer: self.layer@, fill: self.fill@ }
    }
}

/// The values of a list of pours.
pub open spec fn pour_views(v: Seq<Pour>) -> Seq<PourV> {
    Seq::new(v.len(), |i: int| v[i]@)
}

/// The pour that a feature is: a netted conductor area on a copper slab.
pub open spec fn pour_of(f: NetFeatureV, cu: Seq<SlabV>) -> Option<PourV> {
    match (f.net, connectivity::conductor_name(f.feature, cu), f.feature.shape) {
        (Some(net), Some(layer), ShapeV::Area { rings }) => Some(
            PourV { net, layer, fill: rings },
        ),
        _ => None,
    }
}

/// The pours among the first `k` features.
pub open spec fn pours_of(world: Seq<NetFeatureV>, k: nat, cu: Seq<SlabV>) -> Seq<PourV>
    decreases k,
{
    if k == 0 {
        Seq::empty()
    } else {
        let done = pours_of(world, (k - 1) as nat, cu);
        match pour_of(world[k - 1], cu) {
            Some(p) => done.push(p),
            None => done,
        }
    }
}

/// The copper slab of a conductor: the first whose height is the conductor's.
pub fn feature_slab(cu: &Vec<&Slab>, f: &Feature) -> (r: Option<String>)
    ensures
        f@.role == Role::Conductor ==> text::opt_str(r) == connectivity::conductor_name(
            f@,
            stackup::slab_refs(cu@),
        ),
        text::opt_str(r) == {
            let i = layer::z_index(stackup::slab_refs(cu@), f@.z);
            if i < cu.len() {
                Some(stackup::slab_refs(cu@)[i].name)
            } else {
                None
            }
        },
{
    let (_s, z) = f.prism_parts();
    let at = index_of_z(cu, *z);
    if at < cu.len() {
        assert(stackup::slab_refs(cu@)[at as int].name == cu@[at as int].name@);
        Some(cu[at].name.clone())
    } else {
        None
    }
}

/// The pours of a world, in order.
pub fn pours(world: &Vec<NetFeature>, su: &Stackup) -> (r: Vec<Pour>)
    ensures
        pour_views(r@) == pours_of(
            feature::net_feature_views(world@),
            world@.len(),
            stackup::copper_of(su@),
        ),
{
    let cu = su.copper_slabs();
    let ghost slabs = stackup::copper_of(su@);
    let ghost w = feature::net_feature_views(world@);
    let mut out: Vec<Pour> = Vec::new();
    let mut i: usize = 0;
    assert(pour_views(out@) =~= Seq::empty());
    while i < world.len()
        invariant
            i <= world.len(),
            w == feature::net_feature_views(world@),
            slabs == stackup::slab_refs(cu@),
            pour_views(out@) == pours_of(w, i as nat, slabs),
        decreases world.len() - i,
    {
        let nf = &world[i];
        assert(w[i as int] == nf@);
        if let Some(net) = &nf.net {
            if nf.feature.role == Role::Conductor {
                if let Some(layer) = feature_slab(&cu, &nf.feature) {
                    let (s, _z) = nf.feature.prism_parts();
                    if let Some(region) = s.region() {
                        let ghost done = pour_views(out@);
                        let p = Pour { net: net.duplicate(), layer, fill: region.clone() };
                        let ghost one = p@;
                        out.push(p);
                        assert(pour_views(out@) =~= done.push(one));
                    }
                }
            }
        }
        i += 1;
    }
    out
}

// ---------------------------------------------------------------------------
// Laws.
// ---------------------------------------------------------------------------

/// The entry is netted copper on the copper slab that it names.
pub open spec fn on_own_slab(e: (Seq<char>, NetFeatureV), cu: Seq<SlabV>) -> bool {
    &&& e.1.net is Some
    &&& e.1.feature.role == Role::Conductor
    &&& exists|j: int|
        0 <= j < cu.len() && (#[trigger] cu[j]).name == e.0 && cu[j].z == e.1.feature.z
}

/// Every entry is on its slab.
pub open spec fn all_on_slabs(v: CopperList, cu: Seq<SlabV>) -> bool {
    forall|i: int| 0 <= i < v.len() ==> on_own_slab(#[trigger] v[i], cu)
}

proof fn on_slabs_joined(v: CopperList, w: CopperList, cu: Seq<SlabV>)
    requires
        all_on_slabs(v, cu),
        all_on_slabs(w, cu),
    ensures
        all_on_slabs(v + w, cu),
{
    assert forall|i: int| 0 <= i < (v + w).len() implies on_own_slab(#[trigger] (v + w)[i], cu) by {
        if i < v.len() {
            assert((v + w)[i] == v[i]);
        } else {
            assert((v + w)[i] == w[i - v.len()]);
        }
    }
}

proof fn trace_on_slab(t: TraceV, cu: Seq<SlabV>)
    ensures
        all_on_slabs(trace_copper(t, cu), cu),
{
    let i = stackup::slab_index(cu, t.layer);
    stackup::slab_index_is_first(cu, t.layer);
    if i < cu.len() {
        assert(cu[i].name == t.layer);
    }
}

proof fn via_on_slabs(v: ViaV, cu: Seq<SlabV>)
    ensures
        all_on_slabs(via_copper(v, cu), cu),
{
    let s = layer::spanned_of(v, cu);
    let c = via_copper(v, cu);
    layer::spanned_are_copper(v, cu);
    assert forall|i: int| 0 <= i < c.len() implies on_own_slab(#[trigger] c[i], cu) by {
        let j = choose|j: int| 0 <= j < cu.len() && #[trigger] cu[j] == s[i];
        assert(cu[j].name == c[i].0);
    }
}

proof fn pad_on_slabs(fs: Seq<FeatureV>, k: nat, net: Option<Seq<char>>, cu: Seq<SlabV>)
    requires
        k <= fs.len(),
        net is Some,
    ensures
        all_on_slabs(conductors_from(fs, k, net, cu), cu),
    decreases k,
{
    if k > 0 {
        pad_on_slabs(fs, (k - 1) as nat, net, cu);
        let f = fs[k - 1];
        layer::z_index_is_first(cu, f.z);
        if connectivity::conductor_name(f, cu) is Some {
            assert(cu[layer::z_index(cu, f.z)].z == f.z);
        }
    }
}

proof fn pins_on_slabs(c: ComponentV, pins: Seq<PinV>, k: nat, nl: NetlistV, su: Seq<SlabV>)
    requires
        k <= pins.len(),
    ensures
        all_on_slabs(pins_copper(c, pins, k, nl, su, true), stackup::copper_of(su)),
    decreases k,
{
    if k > 0 {
        let cu = stackup::copper_of(su);
        pins_on_slabs(c, pins, (k - 1) as nat, nl, su);
        let fs = geometry::pad_features_of(pins[k - 1], c, su);
        let net = net_of_pin(nl, nl.len(), PinRefV { comp: c.id, pin: pins[k - 1].number });
        if net is Some {
            pad_on_slabs(fs, fs.len(), net, cu);
        }
        on_slabs_joined(
            pins_copper(c, pins, (k - 1) as nat, nl, su, true),
            pin_copper(c, pins[k - 1], nl, su, true),
            cu,
        );
    }
}

proof fn traces_on_slabs(d: DocV, k: nat, su: Seq<SlabV>)
    ensures
        all_on_slabs(traces_copper(d, k, su), stackup::copper_of(su)),
        all_on_slabs(vias_copper(d, k, su), stackup::copper_of(su)),
    decreases k,
{
    if k > 0 {
        let cu = stackup::copper_of(su);
        let n = (k - 1) as nat;
        traces_on_slabs(d, n, su);
        trace_on_slab(d.traces[k - 1].1, cu);
        via_on_slabs(d.vias[k - 1].1, cu);
        on_slabs_joined(traces_copper(d, n, su), trace_copper(d.traces[k - 1].1, cu), cu);
        on_slabs_joined(vias_copper(d, n, su), via_copper(d.vias[k - 1].1, cu), cu);
    }
}

proof fn components_on_slabs(
    d: DocV,
    k: nat,
    lib: Seq<(Seq<char>, PartV)>,
    nl: NetlistV,
    su: Seq<SlabV>,
)
    ensures
        all_on_slabs(components_copper(d, k, lib, nl, su, true), stackup::copper_of(su)),
    decreases k,
{
    if k > 0 {
        let cu = stackup::copper_of(su);
        let n = (k - 1) as nat;
        let c = d.components[k - 1].1;
        components_on_slabs(d, n, lib, nl, su);
        match names::lookup(lib, c.part) {
            Some(def) => pins_on_slabs(c, def.pins, def.pins.len(), nl, su),
            None => {},
        }
        on_slabs_joined(
            components_copper(d, n, lib, nl, su, true),
            component_copper(c, lib, nl, su, true),
            cu,
        );
    }
}

/// Every piece of routed or placed copper is on a net and lies on one copper slab: the one
/// that it is listed under.
pub proof fn copper_lies_on_its_slab(
    d: DocV,
    lib: Seq<(Seq<char>, PartV)>,
    nl: NetlistV,
    su: Seq<SlabV>,
)
    ensures
        all_on_slabs(copper_of_doc(d, lib, nl, su), stackup::copper_of(su)),
{
    let cu = stackup::copper_of(su);
    let (t, v) = (traces_copper(d, d.traces.len(), su), vias_copper(d, d.vias.len(), su));
    traces_on_slabs(d, d.traces.len(), su);
    traces_on_slabs(d, d.vias.len(), su);
    components_on_slabs(d, d.components.len(), lib, nl, su);
    on_slabs_joined(t, v, cu);
    on_slabs_joined(t + v, components_copper(d, d.components.len(), lib, nl, su, true), cu);
}

proof fn pours_split(v: Seq<NetFeatureV>, w: Seq<NetFeatureV>, k: nat, cu: Seq<SlabV>)
    requires
        k <= w.len(),
    ensures
        pours_of(v + w, v.len() + k, cu) == pours_of(v, v.len(), cu) + pours_of(w, k, cu),
    decreases k,
{
    if k == 0 {
        pours_kept(v, w, v.len(), cu);
        assert(pours_of(v, v.len(), cu) + pours_of(w, 0, cu) =~= pours_of(v, v.len(), cu));
    } else {
        pours_split(v, w, (k - 1) as nat, cu);
        let n = v.len() + k;
        assert((v + w)[n - 1] == w[k - 1]);
        let (a, b) = (pours_of(v, v.len(), cu), pours_of(w, (k - 1) as nat, cu));
        match pour_of(w[k - 1], cu) {
            Some(p) => assert((a + b).push(p) =~= a + b.push(p)),
            None => {},
        }
    }
}

proof fn pours_kept(v: Seq<NetFeatureV>, w: Seq<NetFeatureV>, k: nat, cu: Seq<SlabV>)
    requires
        k <= v.len(),
    ensures
        pours_of(v + w, k, cu) == pours_of(v, k, cu),
    decreases k,
{
    if k > 0 {
        pours_kept(v, w, (k - 1) as nat, cu);
        assert((v + w)[k - 1] == v[k - 1]);
    }
}

/// The job fills a copper slab.
spec fn on_copper(j: PourJobV, cu: Seq<SlabV>) -> bool {
    layer::z_index(cu, j.z) < cu.len()
}

proof fn jobs_are_on_copper(
    rs: Seq<RegionV>,
    k: nat,
    copper: CopperList,
    su: Seq<SlabV>,
    clr: int,
)
    ensures
        forall|i: int|
            0 <= i < jobs_of(rs, k, copper, su, clr).len() ==> on_copper(
                #[trigger] jobs_of(rs, k, copper, su, clr)[i],
                stackup::copper_of(su),
            ),
    decreases k,
{
    if k > 0 {
        jobs_are_on_copper(rs, (k - 1) as nat, copper, su, clr);
        let cu = stackup::copper_of(su);
        let r = rs[k - 1];
        let done = jobs_of(rs, (k - 1) as nat, copper, su, clr);
        let all = jobs_of(rs, k, copper, su, clr);
        assert forall|i: int| 0 <= i < all.len() implies on_copper(#[trigger] all[i], cu) by {
            if i < done.len() {
                assert(all[i] == done[i]);
            } else {
                let n = stackup::slab_index(cu, r.layer);
                stackup::slab_index_is_first(cu, r.layer);
                layer::z_index_is_first(cu, cu[n].z);
                assert(all[i].z == cu[n].z);
            }
        }
    }
}

/// The pour of a filled job: the fill on the first slab of that height.
pub open spec fn pour_of_job(j: PourJobV, fill: Seq<Seq<Point>>, cu: Seq<SlabV>) -> PourV {
    PourV { net: j.net, layer: cu[layer::z_index(cu, j.z)].name, fill }
}

proof fn filled_pours(
    jobs: Seq<PourJobV>,
    fills: Seq<Seq<Seq<Point>>>,
    k: nat,
    cu: Seq<SlabV>,
)
    requires
        k <= jobs.len(),
        forall|i: int| 0 <= i < jobs.len() ==> on_copper(#[trigger] jobs[i], cu),
    ensures
        pours_of(filled(jobs, fills), k, cu) == Seq::new(
            k,
            |i: int| pour_of_job(jobs[i], fills[i], cu),
        ),
    decreases k,
{
    let f = |i: int| pour_of_job(jobs[i], fills[i], cu);
    if k == 0 {
        assert(pours_of(filled(jobs, fills), k, cu) =~= Seq::new(k, f));
    } else {
        filled_pours(jobs, fills, (k - 1) as nat, cu);
        assert(on_copper(jobs[k - 1], cu));
        let nf = filled(jobs, fills)[k - 1];
        assert(pour_of(nf, cu) == Some(pour_of_job(jobs[k - 1], fills[k - 1], cu)));
        assert(pours_of(filled(jobs, fills), k, cu) =~= Seq::new(k, f));
    }
}

/// Every authored pour is a pour of the world, with its net and its fill, in the order of
/// the source, after any other.
pub proof fn every_pour_job_is_a_pour(
    d: DocV,
    lib: Seq<(Seq<char>, PartV)>,
    nl: NetlistV,
    clr: int,
    su: Seq<SlabV>,
    src: SourceV,
    fills: Seq<Seq<Seq<Point>>>,
)
    requires
        world_of(d, lib, nl, clr, su, src, fills) is Ok,
        fills.len() == doc_jobs(d, lib, nl, clr, su, src.regions).len(),
    ensures
        ({
            let w = world_of(d, lib, nl, clr, su, src, fills)->Ok_0;
            let cu = stackup::copper_of(su);
            let jobs = doc_jobs(d, lib, nl, clr, su, src.regions);
            let own = Seq::new(jobs.len(), |i: int| pour_of_job(jobs[i], fills[i], cu));
            let rest = w.take(w.len() - jobs.len());
            pours_of(w, w.len(), cu) == pours_of(rest, rest.len(), cu) + own
        }),
{
    let w = world_of(d, lib, nl, clr, su, src, fills)->Ok_0;
    let cu = stackup::copper_of(su);
    let jobs = doc_jobs(d, lib, nl, clr, su, src.regions);
    let tail = filled(jobs, fills);
    let rest = w.take(w.len() - jobs.len());
    assert(w =~= rest + tail);
    jobs_are_on_copper(src.regions, src.regions.len(), solid_of_doc(d, lib, nl, su), su, clr);
    filled_pours(jobs, fills, jobs.len(), cu);
    pours_split(rest, tail, tail.len(), cu);
}

/// The conductors of a pad are at the heights of copper slabs.
spec fn on_copper_height(f: FeatureV, cu: Seq<SlabV>) -> bool {
    f.role == Role::Conductor ==> layer::z_index(cu, f.z) < cu.len()
}

proof fn pad_heights(c: ComponentV, copper: Seq<CopperV>, k: nat, su: Seq<SlabV>)
    requires
        k <= copper.len(),
    ensures
        forall|i: int|
            0 <= i < geometry::copper_features(c, copper, k, su).len() ==> on_copper_height(
                #[trigger] geometry::copper_features(c, copper, k, su)[i],
                stackup::copper_of(su),
            ),
    decreases k,
{
    if k > 0 {
        let cu = stackup::copper_of(su);
        pad_heights(c, copper, (k - 1) as nat, su);
        let done = geometry::copper_features(c, copper, (k - 1) as nat, su);
        let on = geometry::conductors_of(c, copper[k - 1], su);
        let off = geometry::openings_of(c, copper[k - 1], su);
        let all = geometry::copper_features(c, copper, k, su);
        assert forall|i: int| 0 <= i < all.len() implies on_copper_height(
            #[trigger] all[i],
            cu,
        ) by {
            if i < done.len() {
                assert(all[i] == done[i]);
            } else if i < done.len() + on.len() {
                assert(all[i] == on[i - done.len()]);
                layer::z_index_is_first(cu, all[i].z);
                let j = if copper[k - 1].layers == PadLayers::Through {
                    i - done.len()
                } else if geometry::lands_on_top(c, copper[k - 1].layers) {
                    0
                } else {
                    cu.len() - 1
                };
                assert(cu[j].z == all[i].z);
            } else {
                assert(all[i] == off[i - done.len() - on.len()]);
            }
        }
    }
}

proof fn conductor_is_listed(
    fs: Seq<FeatureV>,
    k: nat,
    net: Option<Seq<char>>,
    cu: Seq<SlabV>,
    m: int,
)
    requires
        0 <= m < k <= fs.len(),
        fs[m].role == Role::Conductor,
        layer::z_index(cu, fs[m].z) < cu.len(),
    ensures
        unnamed(conductors_from(fs, k, net, cu)).contains(NetFeatureV { net, feature: fs[m] }),
    decreases k,
{
    let x = NetFeatureV { net, feature: fs[m] };
    let all = conductors_from(fs, k, net, cu);
    let done = conductors_from(fs, (k - 1) as nat, net, cu);
    if m == k - 1 {
        assert(unnamed(all)[all.len() - 1] == x);
    } else {
        conductor_is_listed(fs, (k - 1) as nat, net, cu, m);
        let i = choose|i: int| 0 <= i < unnamed(done).len() && unnamed(done)[i] == x;
        assert(unnamed(all)[i] == x);
    }
}

proof fn joined_contains(a: CopperList, b: CopperList, x: NetFeatureV)
    requires
        unnamed(a).contains(x) || unnamed(b).contains(x),
    ensures
        unnamed(a + b).contains(x),
{
    let s = unnamed(a + b);
    if unnamed(a).contains(x) {
        let i = choose|i: int| 0 <= i < unnamed(a).len() && unnamed(a)[i] == x;
        assert(s[i] == x);
    } else {
        let i = choose|i: int| 0 <= i < unnamed(b).len() && unnamed(b)[i] == x;
        assert(s[a.len() + i] == x);
    }
}

proof fn pin_is_listed(
    c: ComponentV,
    pins: Seq<PinV>,
    k: nat,
    nl: NetlistV,
    su: Seq<SlabV>,
    netted: bool,
    j: int,
    x: NetFeatureV,
)
    requires
        0 <= j < k <= pins.len(),
        unnamed(pin_copper(c, pins[j], nl, su, netted)).contains(x),
    ensures
        unnamed(pins_copper(c, pins, k, nl, su, netted)).contains(x),
    decreases k,
{
    if j < k - 1 {
        pin_is_listed(c, pins, (k - 1) as nat, nl, su, netted, j, x);
    }
    joined_contains(
        pins_copper(c, pins, (k - 1) as nat, nl, su, netted),
        pin_copper(c, pins[k - 1], nl, su, netted),
        x,
    );
}

proof fn component_is_listed(
    d: DocV,
    k: nat,
    lib: Seq<(Seq<char>, PartV)>,
    nl: NetlistV,
    su: Seq<SlabV>,
    netted: bool,
    i: int,
    x: NetFeatureV,
)
    requires
        0 <= i < k <= d.components.len(),
        unnamed(component_copper(d.components[i].1, lib, nl, su, netted)).contains(x),
    ensures
        unnamed(components_copper(d, k, lib, nl, su, netted)).contains(x),
    decreases k,
{
    if i < k - 1 {
        component_is_listed(d, (k - 1) as nat, lib, nl, su, netted, i, x);
    }
    joined_contains(
        components_copper(d, (k - 1) as nat, lib, nl, su, netted),
        component_copper(d.components[k - 1].1, lib, nl, su, netted),
        x,
    );
}

/// The world carries the copper of every placed pad: on the pin's net, or on none where no
/// net lists the pin.
pub proof fn every_pad_is_in_the_world(
    d: DocV,
    lib: Seq<(Seq<char>, PartV)>,
    nl: NetlistV,
    clr: int,
    su: Seq<SlabV>,
    src: SourceV,
    fills: Seq<Seq<Seq<Point>>>,
    i: int,
    j: int,
    f: FeatureV,
)
    requires
        world_of(d, lib, nl, clr, su, src, fills) is Ok,
        0 <= i < d.components.len(),
        names::lookup(lib, d.components[i].1.part) matches Some(def) && 0 <= j < def.pins.len()
            && geometry::pad_features_of(def.pins[j], d.components[i].1, su).contains(f),
        f.role == Role::Conductor,
    ensures
        ({
            let c = d.components[i].1;
            let pin = names::lookup(lib, c.part)->0.pins[j];
            let net = net_of_pin(nl, nl.len(), PinRefV { comp: c.id, pin: pin.number });
            let w = world_of(d, lib, nl, clr, su, src, fills)->Ok_0;
            w.contains(NetFeatureV { net, feature: f })
        }),
{
    let c = d.components[i].1;
    let def = names::lookup(lib, c.part)->0;
    let pin = def.pins[j];
    let net = net_of_pin(nl, nl.len(), PinRefV { comp: c.id, pin: pin.number });
    let x = NetFeatureV { net, feature: f };
    let netted = net is Some;
    let cu = stackup::copper_of(su);
    let fs = geometry::pad_features_of(pin, c, su);
    let m = choose|m: int| 0 <= m < fs.len() && fs[m] == f;
    let pad = pin.pad->0;
    let own = geometry::copper_features(c, pad.copper, pad.copper.len(), su);
    pad_heights(c, pad.copper, pad.copper.len(), su);
    assert(m < own.len() && fs[m] == own[m]);
    conductor_is_listed(fs, fs.len(), net, cu, m);
    pin_is_listed(c, def.pins, def.pins.len(), nl, su, netted, j, x);
    component_is_listed(d, d.components.len(), lib, nl, su, netted, i, x);
    let tv = traces_copper(d, d.traces.len(), su) + vias_copper(d, d.vias.len(), su);
    let on = components_copper(d, d.components.len(), lib, nl, su, true);
    let off = components_copper(d, d.components.len(), lib, nl, su, false);
    if netted {
        joined_contains(tv, on, x);
    }
    joined_contains(tv + on, off, x);
    let solid = solid_of_doc(d, lib, nl, su);
    let w = world_of(d, lib, nl, clr, su, src, fills)->Ok_0;
    let front = src.features->Ok_0 + via_drills(d, su) + components_rest(
        d,
        d.components.len(),
        lib,
        su,
        src,
    );
    let k = choose|k: int| 0 <= k < unnamed(solid).len() && unnamed(solid)[k] == x;
    assert(w[front.len() + k] == x);
}

proof fn routed_copper_follows(a: DocV, b: DocV, k: nat, su: Seq<SlabV>)
    requires
        doc::same_layout(a, b),
    ensures
        traces_copper(a, k, su) == traces_copper(b, k, su),
        vias_copper(a, k, su) == vias_copper(b, k, su),
    decreases k,
{
    if k > 0 {
        routed_copper_follows(a, b, (k - 1) as nat, su);
    }
}

proof fn placed_copper_follows(
    a: DocV,
    b: DocV,
    k: nat,
    lib: Seq<(Seq<char>, PartV)>,
    nl: NetlistV,
    su: Seq<SlabV>,
    netted: bool,
)
    requires
        doc::same_layout(a, b),
    ensures
        components_copper(a, k, lib, nl, su, netted) == components_copper(
            b,
            k,
            lib,
            nl,
            su,
            netted,
        ),
    decreases k,
{
    if k > 0 {
        placed_copper_follows(a, b, (k - 1) as nat, lib, nl, su, netted);
    }
}

proof fn rest_follows(
    a: DocV,
    b: DocV,
    k: nat,
    lib: Seq<(Seq<char>, PartV)>,
    su: Seq<SlabV>,
    src: SourceV,
)
    requires
        doc::same_layout(a, b),
    ensures
        components_rest(a, k, lib, su, src) == components_rest(b, k, lib, su, src),
    decreases k,
{
    if k > 0 {
        rest_follows(a, b, (k - 1) as nat, lib, su, src);
    }
}

/// The world of a document follows from its layout: nothing else of the document is read.
pub proof fn world_follows_the_layout(
    a: DocV,
    b: DocV,
    lib: Seq<(Seq<char>, PartV)>,
    nl: NetlistV,
    clr: int,
    su: Seq<SlabV>,
    src: SourceV,
    fills: Seq<Seq<Seq<Point>>>,
)
    requires
        doc::same_layout(a, b),
    ensures
        world_of(a, lib, nl, clr, su, src, fills) == world_of(b, lib, nl, clr, su, src, fills),
{
    routed_copper_follows(a, b, a.traces.len(), su);
    routed_copper_follows(a, b, a.vias.len(), su);
    placed_copper_follows(a, b, a.components.len(), lib, nl, su, true);
    placed_copper_follows(a, b, a.components.len(), lib, nl, su, false);
    rest_follows(a, b, a.components.len(), lib, su, src);
    assert(via_drills(a, su) =~= via_drills(b, su));
}

} // verus!
