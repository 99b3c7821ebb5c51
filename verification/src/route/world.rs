//! What the world of a document is made of.

use super::connectivity::NetlistV;
use super::features;
use super::features::{CopperList, PourJobV, SourceV};
use crate::coord::Point;
use crate::doc::{ComponentV, DocV};
use crate::geom::feature;
use crate::geom::feature::{FeatureV, NetFeatureV};
use crate::geom::shape::ShapeV;
use crate::geom::stackup;
use crate::geom::stackup::{Role, SlabV, ZRange};
use crate::ir::RegionV;
use crate::names;
use crate::part::geometry;
use crate::part::{PartV, PinV};
use vstd::prelude::*;

verus! {

proof fn held_by_a_sum(a: Seq<NetFeatureV>, b: Seq<NetFeatureV>, x: NetFeatureV)
    requires
        a.contains(x) || b.contains(x),
    ensures
        (a + b).contains(x),
{
    let s = a + b;
    if a.contains(x) {
        let i = choose|i: int| 0 <= i < a.len() && a[i] == x;
        assert(s[i] == x);
    } else {
        let i = choose|i: int| 0 <= i < b.len() && b[i] == x;
        assert(s[a.len() + i] == x);
    }
}

proof fn world_holds(
    d: DocV,
    lib: Seq<(Seq<char>, PartV)>,
    nl: NetlistV,
    clr: int,
    su: Seq<SlabV>,
    src: SourceV,
    fills: Seq<Seq<Seq<Point>>>,
    x: NetFeatureV,
)
    requires
        features::world_of(d, lib, nl, clr, su, src, fills) is Ok,
        ({
            ||| src.features->Ok_0.contains(x)
            ||| features::components_rest(d, d.components.len(), lib, su, src).contains(x)
            ||| features::filled(
                features::doc_jobs(d, lib, nl, clr, su, src.regions),
                fills,
            ).contains(x)
        }),
    ensures
        features::world_of(d, lib, nl, clr, su, src, fills)->Ok_0.contains(x),
{
    let own = src.features->Ok_0;
    let drills = features::via_drills(d, su);
    let rest = features::components_rest(d, d.components.len(), lib, su, src);
    let solid = features::unnamed(features::solid_of_doc(d, lib, nl, su));
    let pours = features::filled(features::doc_jobs(d, lib, nl, clr, su, src.regions), fills);
    if own.contains(x) {
        held_by_a_sum(own, drills, x);
    }
    if own.contains(x) || rest.contains(x) {
        held_by_a_sum(own + drills, rest, x);
        held_by_a_sum(own + drills + rest, solid, x);
    }
    held_by_a_sum(own + drills + rest + solid, pours, x);
}

/// The program's own features are in the world.
pub proof fn the_world_has_the_programs_features(
    d: DocV,
    lib: Seq<(Seq<char>, PartV)>,
    nl: NetlistV,
    clr: int,
    su: Seq<SlabV>,
    src: SourceV,
    fills: Seq<Seq<Seq<Point>>>,
    i: int,
)
    requires
        src.features is Ok,
        0 <= i < src.features->Ok_0.len(),
    ensures
        features::world_of(d, lib, nl, clr, su, src, fills) matches Ok(w) && w.contains(
            src.features->Ok_0[i],
        ),
{
    assert(src.features->Ok_0.contains(src.features->Ok_0[i]));
    world_holds(d, lib, nl, clr, su, src, fills, src.features->Ok_0[i]);
}

proof fn component_is_held(
    d: DocV,
    k: nat,
    lib: Seq<(Seq<char>, PartV)>,
    su: Seq<SlabV>,
    src: SourceV,
    i: int,
    x: NetFeatureV,
)
    requires
        0 <= i < k <= d.components.len(),
        features::component_rest(
            d.components[i].0,
            d.components[i].1,
            lib,
            su,
            src,
        ).contains(x),
    ensures
        features::components_rest(d, k, lib, su, src).contains(x),
    decreases k,
{
    if i < k - 1 {
        component_is_held(d, (k - 1) as nat, lib, su, src, i, x);
    }
    held_by_a_sum(
        features::components_rest(d, (k - 1) as nat, lib, su, src),
        features::component_rest(
            d.components[k - 1].0,
            d.components[k - 1].1,
            lib,
            su,
            src,
        ),
        x,
    );
}

proof fn netless_holds(fs: Seq<FeatureV>, f: FeatureV)
    requires
        fs.contains(f),
    ensures
        features::netless(fs).contains(feature::on_no_net(f)),
{
    let i = choose|i: int| 0 <= i < fs.len() && fs[i] == f;
    assert(features::netless(fs)[i] == feature::on_no_net(f));
}

proof fn void_is_held(fs: Seq<FeatureV>, k: nat, m: int)
    requires
        0 <= m < k <= fs.len(),
        fs[m].role != Role::Conductor,
    ensures
        features::non_conductors(fs, k).contains(feature::on_no_net(fs[m])),
    decreases k,
{
    let all = features::non_conductors(fs, k);
    let done = features::non_conductors(fs, (k - 1) as nat);
    if m == k - 1 {
        assert(all[all.len() - 1] == feature::on_no_net(fs[m]));
    } else {
        void_is_held(fs, (k - 1) as nat, m);
        let x = feature::on_no_net(fs[m]);
        let i = choose|i: int| 0 <= i < done.len() && done[i] == x;
        assert(all[i] == x);
    }
}

proof fn pin_void_is_held(
    c: ComponentV,
    pins: Seq<PinV>,
    k: nat,
    su: Seq<SlabV>,
    j: int,
    m: int,
)
    requires
        0 <= j < k <= pins.len(),
        0 <= m < geometry::pad_features_of(pins[j], c, su).len(),
        geometry::pad_features_of(pins[j], c, su)[m].role != Role::Conductor,
    ensures
        features::pins_voids(c, pins, k, su).contains(
            feature::on_no_net(geometry::pad_features_of(pins[j], c, su)[m]),
        ),
    decreases k,
{
    let fs = geometry::pad_features_of(pins[k - 1], c, su);
    let x = feature::on_no_net(geometry::pad_features_of(pins[j], c, su)[m]);
    if j < k - 1 {
        pin_void_is_held(c, pins, (k - 1) as nat, su, j, m);
    } else {
        void_is_held(fs, fs.len(), m);
    }
    held_by_a_sum(
        features::pins_voids(c, pins, (k - 1) as nat, su),
        features::non_conductors(fs, fs.len()),
        x,
    );
}

proof fn rest_holds(
    key: Seq<char>,
    c: ComponentV,
    lib: Seq<(Seq<char>, PartV)>,
    su: Seq<SlabV>,
    src: SourceV,
    def: PartV,
    x: NetFeatureV,
)
    requires
        names::lookup(lib, c.part) == Some(def),
        ({
            ||| features::pins_voids(c, def.pins, def.pins.len(), su).contains(x)
            ||| features::netless(
                geometry::graphics_prefix(def.graphics, def.graphics.len(), c, su),
            ).contains(x)
            ||| features::netless(
                geometry::texts_prefix(
                    def.texts,
                    def.texts.len(),
                    c,
                    su,
                    features::text_of(src.refdes, key),
                    features::text_of(src.labels, key),
                    src.font,
                ),
            ).contains(x)
        }),
    ensures
        features::component_rest(key, c, lib, su, src).contains(x),
{
    let a = features::pins_voids(c, def.pins, def.pins.len(), su);
    let b = features::netless(
        geometry::graphics_prefix(def.graphics, def.graphics.len(), c, su),
    );
    let t = features::netless(
        geometry::texts_prefix(
            def.texts,
            def.texts.len(),
            c,
            su,
            features::text_of(src.refdes, key),
            features::text_of(src.labels, key),
            src.font,
        ),
    );
    if a.contains(x) || b.contains(x) {
        held_by_a_sum(a, b, x);
    }
    held_by_a_sum(a + b, t, x);
}

/// The world has what every placed component draws, on no net: its graphics, its texts with
/// the reference and the label of that component, and the holes and openings of its pads.
pub proof fn the_world_has_what_components_draw(
    d: DocV,
    lib: Seq<(Seq<char>, PartV)>,
    nl: NetlistV,
    clr: int,
    su: Seq<SlabV>,
    src: SourceV,
    fills: Seq<Seq<Seq<Point>>>,
    i: int,
    f: FeatureV,
    j: int,
)
    requires
        src.features is Ok,
        0 <= i < d.components.len(),
        names::lookup(lib, d.components[i].1.part) is Some,
        ({
            let (key, c) = d.components[i];
            let def = names::lookup(lib, c.part)->0;
            ||| geometry::graphics_prefix(def.graphics, def.graphics.len(), c, su).contains(f)
            ||| geometry::texts_prefix(
                def.texts,
                def.texts.len(),
                c,
                su,
                features::text_of(src.refdes, key),
                features::text_of(src.labels, key),
                src.font,
            ).contains(f)
            ||| 0 <= j < def.pins.len() && f.role != Role::Conductor && geometry::pad_features_of(
                def.pins[j],
                c,
                su,
            ).contains(f)
        }),
    ensures
        features::world_of(d, lib, nl, clr, su, src, fills) matches Ok(w) && w.contains(
            feature::on_no_net(f),
        ),
{
    let (key, c) = d.components[i];
    let def = names::lookup(lib, c.part)->0;
    let x = feature::on_no_net(f);
    let gs = geometry::graphics_prefix(def.graphics, def.graphics.len(), c, su);
    let ts = geometry::texts_prefix(
        def.texts,
        def.texts.len(),
        c,
        su,
        features::text_of(src.refdes, key),
        features::text_of(src.labels, key),
        src.font,
    );
    if gs.contains(f) {
        netless_holds(gs, f);
    } else if ts.contains(f) {
        netless_holds(ts, f);
    } else {
        let fs = geometry::pad_features_of(def.pins[j], c, su);
        let m = choose|m: int| 0 <= m < fs.len() && fs[m] == f;
        pin_void_is_held(c, def.pins, def.pins.len(), su, j, m);
    }
    rest_holds(key, c, lib, su, src, def, x);
    component_is_held(d, d.components.len(), lib, su, src, i, x);
    world_holds(d, lib, nl, clr, su, src, fills, x);
}

// ---------------------------------------------------------------------------
// Pours.
// ---------------------------------------------------------------------------

/// Some slab of copper has that name and that height, and none above it has the name.
pub open spec fn is_copper_slab(cu: Seq<SlabV>, name: Seq<char>, z: ZRange) -> bool {
    exists|k: int|
        0 <= k < cu.len() && (#[trigger] cu[k]).name == name && cu[k].z == z && forall|l: int|
            0 <= l < k ==> (#[trigger] cu[l]).name != name
}

proof fn job_is_held(
    rs: Seq<RegionV>,
    k: nat,
    copper: CopperList,
    su: Seq<SlabV>,
    clr: int,
    i: int,
    job: PourJobV,
) -> (at: int)
    requires
        0 <= i < k <= rs.len(),
        features::job_of(rs[i], copper, su, clr) == Some(job),
    ensures
        0 <= at < features::jobs_of(rs, k, copper, su, clr).len(),
        features::jobs_of(rs, k, copper, su, clr)[at] == job,
    decreases k,
{
    let all = features::jobs_of(rs, k, copper, su, clr);
    if i == k - 1 {
        all.len() - 1
    } else {
        let at = job_is_held(rs, (k - 1) as nat, copper, su, clr, i, job);
        let done = features::jobs_of(rs, (k - 1) as nat, copper, su, clr);
        assert(all[at] == done[at]);
        at
    }
}

/// Every conductor region with a net on a copper slab is poured: the world has its fill as
/// copper of that net at the height of that slab, and the fill is made within its outline.
pub proof fn every_conductor_region_is_poured(
    d: DocV,
    lib: Seq<(Seq<char>, PartV)>,
    nl: NetlistV,
    clr: int,
    su: Seq<SlabV>,
    src: SourceV,
    fills: Seq<Seq<Seq<Point>>>,
    i: int,
    net: Seq<char>,
    z: ZRange,
) -> (at: int)
    requires
        src.features is Ok,
        fills.len() == features::doc_jobs(d, lib, nl, clr, su, src.regions).len(),
        0 <= i < src.regions.len(),
        src.regions[i].role == Role::Conductor,
        src.regions[i].net == Some(net),
        is_copper_slab(stackup::copper_of(su), src.regions[i].layer, z),
    ensures
        0 <= at < fills.len(),
        features::doc_jobs(d, lib, nl, clr, su, src.regions)[at].outline == src.regions[i].shape,
        features::world_of(d, lib, nl, clr, su, src, fills) matches Ok(w) && exists|m: int|
            0 <= m < w.len() && (#[trigger] w[m]).net == Some(net) && w[m].feature.role
                == Role::Conductor && w[m].feature.shape == (ShapeV::Area { rings: fills[at] })
                && w[m].feature.z == z,
{
    let cu = stackup::copper_of(su);
    let r = src.regions[i];
    let k = choose|k: int|
        0 <= k < cu.len() && (#[trigger] cu[k]).name == r.layer && cu[k].z == z && forall|l: int|
            0 <= l < k ==> (#[trigger] cu[l]).name != r.layer;
    let n = stackup::slab_index(cu, r.layer);
    stackup::slab_index_is_first(cu, r.layer);
    assert(cu[k].name == r.layer);
    if n < k {
        assert(cu[n].name != r.layer);
    }
    let copper = features::solid_of_doc(d, lib, nl, su);
    let job = features::job_of(r, copper, su, clr)->0;
    let at = job_is_held(src.regions, src.regions.len(), copper, su, clr, i, job);
    let jobs = features::doc_jobs(d, lib, nl, clr, su, src.regions);
    let v = features::filled(jobs, fills);
    let x = v[at];
    assert(v.contains(x));
    world_holds(d, lib, nl, clr, su, src, fills, x);
    let w = features::world_of(d, lib, nl, clr, su, src, fills)->Ok_0;
    let m = choose|m: int| 0 <= m < w.len() && w[m] == x;
    assert(w[m].net == Some(net));
    at
}

} // verus!
