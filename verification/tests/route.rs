//! Routed copper: layers, vias, incidence, connectivity and the design-rule check.

use ecad_core::coord::{Nm, Orient, Point, MM};
use ecad_core::doc::{Component, Doc, Dof, Net, PinRef, Provenance};
use ecad_core::geom::{
    Feature, KeepoutKind, NetFeature, Region, Role, Shape2D, Slab, Stackup, ZRange,
};
use ecad_core::id::{EntityId, NetId, TraceId, ViaId};
use ecad_core::ir::RegionDecl;
use ecad_core::names::NameMap;
use ecad_core::part::geometry::Lettering;
use ecad_core::part::{PadCopper, PadGeo, PadLayers, PartDef, PartLib, PinDef, PinRole};
use ecad_core::query::resolve_netlist;
use ecad_core::route::connectivity::{pin_islands, Copper, PinPoint};
use ecad_core::route::drc::{board_region, edge_jobs, island_jobs};
use ecad_core::route::features::{world_jobs, SourceGeometry};
use ecad_core::route::incidence::{
    point_on_polyline, polylines_closer_than_inc, seg_within, segments, segments_intersect,
};
use ecad_core::route::layer::{copper_layers_z, layer_slab_name, slab_layer};
use ecad_core::route::rules::{add_violation, Location};
use ecad_core::route::union_find::UnionFind;
use ecad_core::route::{
    check_document, check_drc, net_features, pours, world_features, DesignRules, Layer, Netlist, Trace, Via,
    Violation,
};

fn pt(x: Nm, y: Nm) -> Point {
    Point { x, y }
}

fn square(c: Point, h: Nm) -> Vec<Point> {
    vec![
        pt(c.x - h, c.y - h),
        pt(c.x + h, c.y - h),
        pt(c.x + h, c.y + h),
        pt(c.x - h, c.y + h),
    ]
}

fn slab(name: &str, lo: Nm, hi: Nm, role: Role) -> Slab {
    Slab { name: name.into(), z: ZRange::new(lo, hi), role, material: None }
}

fn four_layers() -> Stackup {
    Stackup {
        slabs: vec![
            slab("B.Cu", 0, 10, Role::Conductor),
            slab("F.Cu", 30, 40, Role::Conductor),
            slab("core", 10, 30, Role::Substrate),
            slab("In1.Cu", 20, 22, Role::Conductor),
            slab("In2.Cu", 12, 14, Role::Conductor),
        ],
    }
}

/// A part with two round surface pads, a millimetre to either side.
fn two_pads() -> PartDef {
    let pad = |n: &str, x: Nm| PinDef {
        name: n.into(),
        number: n.into(),
        role: PinRole::Passive,
        offset: pt(x, 0),
        pad: Some(PadGeo {
            copper: vec![PadCopper {
                shape: Shape2D::disc(pt(x, 0), MM / 5),
                layers: PadLayers::Top,
            }],
            drill: None,
        }),
    };
    PartDef {
        name: "R".into(),
        pins: vec![pad("1", -MM), pad("2", MM)],
        interfaces: NameMap::new(),
        graphics: vec![],
        texts: vec![],
        courtyard: None,
        class: None,
    }
}

fn library() -> PartLib {
    let mut lib = NameMap::new();
    lib.insert("R".into(), two_pads());
    lib
}

fn place(doc: &mut Doc, id: &str, at: Point) {
    doc.components.insert(
        id.into(),
        Component {
            id: EntityId::new(id),
            part: "R".into(),
            pos: Dof { value: at, prov: Provenance::Free },
            orient: Orient::default(),
            params: NameMap::new(),
            label: None,
        },
    );
}

fn connect(doc: &mut Doc, net: &str, pins: &[(&str, &str)]) {
    let members =
        pins.iter().map(|(c, p)| PinRef::new(&EntityId::new(c), p)).collect();
    doc.nets.insert(net.into(), Net { name: net.into(), members });
}

fn trace(net: &str, layer: &str, path: Vec<Point>, width: Nm) -> Trace {
    Trace { net: NetId::new(net), layer: layer.into(), path, width, prov: Provenance::Free }
}

fn via(net: &str, at: Point, span: Option<(&str, &str)>) -> Via {
    Via {
        net: NetId::new(net),
        at,
        span: span.map(|(a, b)| (a.to_string(), b.to_string())),
        drill: MM / 5,
        pad: MM / 2,
        prov: Provenance::Free,
    }
}

fn source(regions: Vec<RegionDecl>) -> SourceGeometry {
    SourceGeometry {
        features: Ok(vec![]),
        regions,
        refdes: NameMap::new(),
        labels: NameMap::new(),
        font: Lettering { drawn: vec![] },
    }
}

/// Two parts in a row, joined by a net, with a second net beside it.
fn board() -> Doc {
    let mut d = Doc::default();
    place(&mut d, "a", pt(0, 0));
    place(&mut d, "b", pt(10 * MM, 0));
    connect(&mut d, "N1", &[("a", "2"), ("b", "1")]);
    connect(&mut d, "N2", &[("a", "1")]);
    d
}

fn check(d: &Doc, extra: Vec<NetFeature>, spilling: bool) -> Vec<Violation> {
    let lib = library();
    let su = Stackup::default_2layer();
    let rules = DesignRules::default();
    let nl: Netlist = resolve_netlist(d, &lib);
    let mut world = world_features(d, &lib, &nl, &rules, &su, &source(vec![]), &vec![]).unwrap();
    world.extend(extra);
    let spills = edge_jobs(&world, &su, &rules).iter().map(|_| spilling).collect();
    let islands = (0..nl.len())
        .map(|i| {
            let jobs = island_jobs(&world, &su, nl.key_at(i));
            let mut out = Vec::new();
            for k in 0..jobs.len() {
                for r in &jobs.value_at(k).regions {
                    out.push((jobs.key_at(k).clone(), r.clone()));
                }
            }
            out
        })
        .collect();
    check_drc(d, &lib, &nl, &rules, &su, &world, &spills, &islands)
}

#[test]
fn layers_are_named_from_the_top() {
    let su = four_layers();
    let names: Vec<Option<String>> =
        [Layer::Top, Layer::Inner(0), Layer::Inner(1), Layer::Inner(2), Layer::Bottom]
            .iter()
            .map(|l| layer_slab_name(&su, *l))
            .collect();
    let want = [Some("F.Cu"), Some("In1.Cu"), Some("In2.Cu"), None, Some("B.Cu")];
    assert_eq!(names, want.map(|n| n.map(String::from)));
    for (l, z) in copper_layers_z(&su) {
        let name = layer_slab_name(&su, l).unwrap();
        assert_eq!(su.slab_z(&name), Some(z));
        assert_eq!(slab_layer(&su, &name), Some(l));
    }
    assert_eq!(slab_layer(&su, "core"), None);
    assert!(Layer::Top < Layer::Inner(0) && Layer::Inner(9) < Layer::Bottom);
    assert!(Layer::Top.depth() < Layer::Inner(0).depth());
    assert!(Layer::Inner(200).depth() < Layer::Bottom.depth());
}

#[test]
fn a_via_spans_what_lies_between_its_ends() {
    let su = four_layers();
    let cu = su.copper_slabs();
    let spanned = |v: &Via| -> Vec<String> {
        v.spanned_slabs(&cu).iter().map(|s| s.name.clone()).collect()
    };
    assert_eq!(spanned(&via("N", pt(0, 0), None)), ["F.Cu", "In1.Cu", "In2.Cu", "B.Cu"]);
    let buried = via("N", pt(0, 0), Some(("In2.Cu", "F.Cu")));
    assert_eq!(spanned(&buried), ["F.Cu", "In1.Cu", "In2.Cu"]);
    assert!(spanned(&via("N", pt(0, 0), Some(("F.Cu", "nowhere")))).is_empty());
    assert!(buried.spans_z(&cu, &su.slab_z("In1.Cu").unwrap()));
    assert!(!buried.spans_z(&cu, &su.slab_z("B.Cu").unwrap()));
    assert!(!buried.spans_z(&cu, &su.slab_z("core").unwrap()));
}

#[test]
fn segments_cross_touch_and_come_near() {
    assert!(segments_intersect(pt(0, 0), pt(10, 10), pt(0, 10), pt(10, 0)));
    assert!(!segments_intersect(pt(0, 0), pt(10, 0), pt(0, 1), pt(10, 1)));
    assert!(seg_within(pt(0, 0), pt(10, 0), pt(0, 5), pt(10, 5), 5, false));
    assert!(!seg_within(pt(0, 0), pt(10, 0), pt(0, 5), pt(10, 5), 5, true));
    assert!(seg_within(pt(0, 0), pt(10, 0), pt(0, 5), pt(10, 5), 6, true));
    assert_eq!(segments(&vec![pt(0, 0), pt(1, 0), pt(1, 1)]).len(), 2);
    assert!(point_on_polyline(pt(5, 3), &vec![pt(0, 0), pt(10, 0)], 3));
    assert!(!point_on_polyline(pt(5, 4), &vec![pt(0, 0), pt(10, 0)], 3));
    let (p, q) = (vec![pt(0, 0), pt(10, 0)], vec![pt(5, 2), pt(5, 9)]);
    assert!(polylines_closer_than_inc(&p, &q, 2) && polylines_closer_than_inc(&q, &p, 2));
    assert!(!polylines_closer_than_inc(&p, &q, 1));
}

#[test]
fn sets_join_and_stay_joined() {
    let mut uf = UnionFind::new(5);
    uf.union(0, 1);
    uf.union(3, 4);
    assert_eq!(uf.find(0), uf.find(1));
    assert_ne!(uf.find(1), uf.find(2));
    uf.union(1, 4);
    assert_eq!(uf.find(0), uf.find(3));
    assert_ne!(uf.find(0), uf.find(2));
}

#[test]
fn violations_are_kept_sorted_and_single() {
    let all = || {
        vec![
            Violation::Clearance { a: NetId::new("A"), b: NetId::new("B"), layer: "F.Cu".into() },
            Violation::Clearance { a: NetId::new("A"), b: NetId::new("C"), layer: "B.Cu".into() },
            Violation::MinWidth { trace: TraceId(1), width: 7 },
            Violation::MinWidth { trace: TraceId(2), width: 3 },
            Violation::Unrouted { net: NetId::new("A"), islands: 2 },
            Violation::Keepout { net: NetId::new("A"), kind: KeepoutKind::Copper },
            Violation::Keepout { net: NetId::new("A"), kind: KeepoutKind::Route },
            Violation::EdgeClearance { net: NetId::new("Z") },
        ]
    };
    let mut out = Vec::new();
    for v in all().into_iter().rev().chain(all()) {
        add_violation(&mut out, v);
    }
    assert_eq!(out, all());
    let mut sorted = all();
    sorted.sort();
    assert_eq!(sorted, out);
}

#[test]
fn violations_explain_themselves() {
    let d = Violation::MinWidth { trace: TraceId(4), width: 99 }.diagnostics();
    assert_eq!(d.code, "E_DRC_MIN_WIDTH");
    assert_eq!(d.location, Location::Trace(TraceId(4)));
    let d = Violation::Clearance {
        a: NetId::new("A"),
        b: NetId::new("B"),
        layer: "F.Cu".into(),
    }
    .diagnostics();
    assert_eq!(d.code, "E_DRC_CLEARANCE");
    assert_eq!(d.message, "nets `A` and `B` are closer than clearance on `F.Cu`");
    assert_eq!(d.location, Location::Net(NetId::new("A")));
}

#[test]
fn copper_joins_pins_only_where_it_lies() {
    let su = Stackup::default_2layer();
    let pin = |x: Nm| PinPoint { at: pt(x, 0), slabs: vec!["F.Cu".into()], all_layers: false };
    let pins = vec![pin(0), pin(10 * MM)];
    let top = trace("N", "F.Cu", vec![pt(0, 0), pt(10 * MM, 0)], MM / 5);
    let half = trace("N", "F.Cu", vec![pt(0, 0), pt(5 * MM, 0)], MM / 5);
    let below = trace("N", "B.Cu", vec![pt(5 * MM, 0), pt(10 * MM, 0)], MM / 5);
    let (v1, v2) = (via("N", pt(5 * MM, 0), None), via("N", pt(10 * MM, 0), None));
    let count = |ts: Vec<&Trace>, vs: Vec<&Via>, islands: Vec<(String, Region)>| {
        let c = Copper { pins: &pins, traces: &ts, vias: &vs, islands: &islands };
        pin_islands(&c, &su, 10_000)
    };
    assert_eq!(count(vec![], vec![], vec![]), 2);
    assert_eq!(count(vec![&top], vec![], vec![]), 1);
    assert_eq!(count(vec![&half], vec![], vec![]), 2);
    assert_eq!(count(vec![&half, &below], vec![&v1, &v2], vec![]), 1);
    let plane = |layer: &str| {
        vec![(layer.to_string(), Region { rings: vec![square(pt(5 * MM, 0), 8 * MM)] })]
    };
    assert_eq!(count(vec![], vec![], plane("F.Cu")), 1);
    assert_eq!(count(vec![], vec![], plane("B.Cu")), 2);
}

#[test]
fn an_open_net_is_unrouted_and_a_joined_one_is_not() {
    let mut d = board();
    assert_eq!(
        check(&d, vec![], false),
        [Violation::Unrouted { net: NetId::new("N1"), islands: 2 }]
    );
    d.traces.insert(TraceId(1), trace("N1", "F.Cu", vec![pt(MM, 0), pt(9 * MM, 0)], MM / 5));
    assert_eq!(check(&d, vec![], false), []);
}

#[test]
fn a_thin_trace_and_a_close_one_are_reported() {
    let mut d = board();
    d.traces.insert(TraceId(1), trace("N1", "F.Cu", vec![pt(MM, 0), pt(9 * MM, 0)], 149_999));
    let low = vec![pt(-MM, 0), pt(-MM, -MM / 4), pt(5 * MM, -MM / 4)];
    d.traces.insert(TraceId(2), trace("N2", "F.Cu", low.clone(), 150_000));
    assert_eq!(
        check(&d, vec![], false),
        [
            Violation::Clearance {
                a: NetId::new("N1"),
                b: NetId::new("N2"),
                layer: "F.Cu".into(),
            },
            Violation::MinWidth { trace: TraceId(1), width: 149_999 },
        ]
    );
    d.traces.insert(TraceId(2), trace("N2", "B.Cu", low, 150_000));
    assert_eq!(
        check(&d, vec![], false),
        [Violation::MinWidth { trace: TraceId(1), width: 149_999 }]
    );
}

#[test]
fn traces_are_kept_by_ascending_number() {
    let mut d = Doc::default();
    for n in [5, 2, 9, 2] {
        d.traces.insert(TraceId(n), trace("N", "F.Cu", vec![pt(0, 0), pt(MM, 0)], 100 + n as Nm));
    }
    d.traces.insert(TraceId(5), trace("M", "F.Cu", vec![pt(0, 0), pt(MM, 0)], 7));
    let seen: Vec<(u64, Nm)> = (0..d.traces.len())
        .map(|i| (d.traces.key_at(i).0, d.traces.value_at(i).width))
        .collect();
    assert_eq!(seen, [(2, 102), (5, 7), (9, 109)]);
    assert_eq!(d.traces.value_at(1).net.as_str(), "M");
}

#[test]
fn keepouts_and_the_board_edge_are_respected() {
    let mut d = board();
    d.traces.insert(TraceId(1), trace("N1", "F.Cu", vec![pt(MM, 0), pt(9 * MM, 0)], MM / 5));
    let su = Stackup::default_2layer();
    let keepout = |kind| {
        let area = Shape2D::rect(pt(5 * MM, 0), MM, MM);
        NetFeature::netless(Feature::prism(
            Role::Keepout(kind),
            area,
            su.slab_z("F.Cu").unwrap(),
        ))
    };
    assert_eq!(
        check(&d, vec![keepout(KeepoutKind::Route), keepout(KeepoutKind::Component)], false),
        [Violation::Keepout { net: NetId::new("N1"), kind: KeepoutKind::Route }]
    );
    let substrate = NetFeature::netless(Feature::prism(
        Role::Substrate,
        Shape2D::Area { region: Region { rings: vec![square(pt(0, 0), 2 * MM)] } },
        su.board_z().unwrap(),
    ));
    assert_eq!(check(&d, vec![], true), []);
    let nets: Vec<Violation> = check(&d, vec![substrate.clone()], true);
    assert_eq!(
        nets,
        [
            Violation::EdgeClearance { net: NetId::new("N1") },
            Violation::EdgeClearance { net: NetId::new("N2") },
        ]
    );
    assert_eq!(check(&d, vec![substrate.clone()], false), []);
    assert!(board_region(&vec![substrate]).is_some());
    assert!(board_region(&vec![]).is_none());
}

/// A square pad that shares a side with a keep-out keeps out of it.
#[test]
fn copper_may_touch_a_keepout() {
    let su = Stackup::default_2layer();
    let z = su.slab_z("F.Cu").unwrap();
    let keepout = |x: Nm| {
        Feature::prism(
            Role::Keepout(KeepoutKind::Copper),
            Shape2D::rect(pt(x, 0), 2 * MM, 2 * MM),
            z,
        )
    };
    let pad = Feature::prism(Role::Conductor, Shape2D::rect(pt(MM, 0), 2 * MM, 2 * MM), z);
    assert!(pad.keeps_out_of(&keepout(-MM), 0));
    assert!(pad.keeps_out_of(&keepout(3 * MM), 0));
    assert!(!pad.keeps_out_of(&keepout(-MM + 1), 0));
    assert!(!pad.keeps_out_of(&keepout(MM), 0));
    assert!(!pad.keeps_out_of(&keepout(-MM), 1));
}

#[test]
fn edge_jobs_grow_solid_copper() {
    let mut d = Doc::default();
    d.traces.insert(TraceId(1), trace("N", "F.Cu", vec![pt(0, 0), pt(MM, 0)], MM / 5));
    let lib = library();
    let su = Stackup::default_2layer();
    let rules = DesignRules::default();
    let nl = resolve_netlist(&d, &lib);
    let world = world_features(&d, &lib, &nl, &rules, &su, &source(vec![]), &vec![]).unwrap();
    let jobs = edge_jobs(&world, &su, &rules);
    assert_eq!(jobs.len(), 1);
    assert_eq!(jobs[0].1.radius(), MM / 10 + 200_000);
}

#[test]
fn the_world_holds_pads_traces_vias_and_their_drills() {
    let mut d = board();
    d.traces.insert(TraceId(1), trace("N1", "F.Cu", vec![pt(MM, 0), pt(9 * MM, 0)], MM / 5));
    d.vias.insert(ViaId(1), via("N1", pt(5 * MM, 0), None));
    let lib = library();
    let su = Stackup::default_2layer();
    let rules = DesignRules::default();
    let nl = resolve_netlist(&d, &lib);
    let copper = net_features(&d, &lib, &nl, &su);
    let slabs: Vec<&str> = copper.iter().map(|(n, _)| n.as_str()).collect();
    assert_eq!(slabs, ["F.Cu", "F.Cu", "B.Cu", "F.Cu", "F.Cu", "F.Cu"]);
    assert!(copper.iter().all(|(_, f)| f.net.is_some() && f.feature.role == Role::Conductor));
    let world = world_features(&d, &lib, &nl, &rules, &su, &source(vec![]), &vec![]).unwrap();
    let drills: Vec<&NetFeature> = world
        .iter()
        .filter(|f| f.feature.role == Role::Void && f.feature.material.is_some())
        .collect();
    assert_eq!(drills.len(), 1);
    let failed = SourceGeometry { features: Err("unknown slab".into()), ..source(vec![]) };
    assert_eq!(
        world_features(&d, &lib, &nl, &rules, &su, &failed, &vec![]),
        Err("unknown slab".to_string())
    );
}

#[test]
fn a_pour_is_cut_around_foreign_copper_and_read_back() {
    let mut d = board();
    d.traces.insert(TraceId(1), trace("N1", "F.Cu", vec![pt(MM, 0), pt(9 * MM, 0)], MM / 5));
    let lib = library();
    let su = Stackup::default_2layer();
    let rules = DesignRules::default();
    let nl = resolve_netlist(&d, &lib);
    let region = |net: Option<&str>, layer: &str| RegionDecl {
        shape: Shape2D::rect(pt(5 * MM, 0), 20 * MM, 20 * MM),
        role: Role::Conductor,
        net: net.map(String::from),
        layer: layer.into(),
    };
    let src = source(vec![
        region(Some("N2"), "F.Cu"),
        region(None, "F.Cu"),
        region(Some("N1"), "F.SilkS"),
    ]);
    let jobs = world_jobs(&d, &lib, &nl, &rules, &su, &src);
    assert_eq!(jobs.len(), 1);
    assert_eq!(jobs[0].net, NetId::new("N2"));
    // The trace and the two pads of the other net and the pad on none, each grown by the
    // clearance.
    assert_eq!(jobs[0].obstacles.len(), 4);
    assert_eq!(jobs[0].obstacles[0].radius(), MM / 10 + 150_000);
    let fill = Region { rings: vec![square(pt(0, 0), MM)] };
    let world = world_features(&d, &lib, &nl, &rules, &su, &src, &vec![fill.clone()]).unwrap();
    let got = pours(&world, &su);
    assert_eq!(got.len(), 1);
    assert_eq!((got[0].layer.as_str(), &got[0].fill), ("F.Cu", &fill));
    assert_eq!(island_jobs(&world, &su, "N2").get("F.Cu").unwrap().regions, vec![fill]);
    assert!(island_jobs(&world, &su, "N1").is_empty());
}

/// The copper of a pad that no net lists is in the world, without a net, and not among the
/// copper on nets.
#[test]
fn a_floating_pad_has_copper() {
    let d = board();
    let lib = library();
    let su = Stackup::default_2layer();
    let nl = resolve_netlist(&d, &lib);
    let rules = DesignRules::default();
    let world = world_features(&d, &lib, &nl, &rules, &su, &source(vec![]), &vec![]).unwrap();
    let floating: Vec<&NetFeature> = world
        .iter()
        .filter(|f| f.net.is_none() && f.feature.role == Role::Conductor)
        .collect();
    let b = d.components.get("b").unwrap();
    let def = lib.get(b.part.as_str()).unwrap();
    let pads: Vec<Feature> = def.pins[1]
        .pad_features(b, &su)
        .into_iter()
        .filter(|f| f.role == Role::Conductor)
        .collect();
    assert_eq!(pads.len(), 1);
    assert_eq!(floating.len(), 1);
    assert_eq!(floating[0].feature, pads[0]);
    let netted = net_features(&d, &lib, &nl, &su);
    assert_eq!(netted.len(), 3);
    assert!(netted.iter().all(|(_, f)| f.net.is_some()));
}

/// Checking a document makes its world and checks that.
#[test]
fn a_document_is_checked_in_one_step() {
    let d = board();
    let lib = library();
    let su = Stackup::default_2layer();
    let nl = resolve_netlist(&d, &lib);
    let rules = DesignRules::default();
    let (none, open) = (vec![], vec![vec![], vec![]]);
    let spills = vec![false; 3];
    let found =
        check_document(&d, &lib, &nl, &rules, &su, &source(vec![]), &none, &spills, &open);
    assert_eq!(found, Ok(check(&d, vec![], false)));
    assert_eq!(found.unwrap().len(), 1);
    let mut failed = source(vec![]);
    failed.features = Err("no slab".into());
    assert_eq!(
        check_document(&d, &lib, &nl, &rules, &su, &failed, &none, &spills, &open),
        Err("no slab".to_string())
    );
}
