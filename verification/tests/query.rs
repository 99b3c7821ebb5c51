//! The query engine: what is computed, and what is not computed again.

use ecad_core::coord::{Orient, Point};
use ecad_core::doc::{Component, Doc, Dof, Net, PinRef, Provenance};
use ecad_core::geom::Stackup;
use ecad_core::id::EntityId;
use ecad_core::history::History;
use ecad_core::names::NameMap;
use ecad_core::part::geometry::Lettering;
use ecad_core::part::library::part_library;
use ecad_core::part::PinRole;
use ecad_core::query::{Engine, Key, Physical, QueryValue};
use ecad_core::route::features::SourceGeometry;
use ecad_core::route::Violation;

fn place(d: &mut Doc, id: &str, part: &str) {
    d.components.insert(
        id.into(),
        Component {
            id: EntityId::new(id),
            part: part.into(),
            pos: Dof { value: Point { x: 0, y: 0 }, prov: Provenance::Free },
            orient: Orient::default(),
            params: NameMap::new(),
            label: None,
        },
    );
}

fn net(d: &mut Doc, name: &str, pins: &[(&str, &str)]) {
    let members = pins.iter().map(|(c, p)| PinRef::new(&EntityId::new(c), p)).collect();
    d.nets.insert(name.into(), Net { name: name.into(), members });
}

fn contending() -> Doc {
    let mut d = Doc::default();
    place(&mut d, "u1", "LDO");
    place(&mut d, "u2", "LDO");
    net(&mut d, "VCC", &[("u1", "VOUT"), ("u2", "VOUT"), ("u9", "X")]);
    net(&mut d, "VIN", &[("u1", "VIN"), ("u2", "VIN")]);
    d.conn_rev = 1;
    d
}

/// What the kernel works out of a document with no copper and two nets.
fn bare() -> Physical {
    Physical {
        su: Stackup { slabs: vec![] },
        src: SourceGeometry {
            features: Ok(vec![]),
            regions: vec![],
            refdes: NameMap::new(),
            labels: NameMap::new(),
            font: Lettering { drawn: vec![] },
        },
        fills: vec![],
        spills: vec![],
        islands: vec![vec![], vec![]],
    }
}

#[test]
fn the_netlist_pairs_pins_with_roles() {
    let (d, lib) = (contending(), part_library());
    let mut e = Engine::new();
    let v = e.query(&d, &lib, &bare(), Key::Netlist);
    let nl = v.as_netlist();
    assert_eq!(nl.len(), 2);
    let roles: Vec<PinRole> = nl.get("VCC").unwrap().pins.iter().map(|p| p.1).collect();
    assert_eq!(roles, [PinRole::PowerOut, PinRole::PowerOut, PinRole::Passive]);
}

#[test]
fn two_drivers_on_a_net_contend() {
    let (d, lib) = (contending(), part_library());
    let mut e = Engine::new();
    let v = e.query(&d, &lib, &bare(), Key::Erc);
    assert_eq!(v.as_erc(), &vec!["net `VCC`: 2 drivers contend".to_string()]);
    assert_eq!(e.count(Key::Netlist), 1);
    assert_eq!(e.count(Key::Erc), 1);
    assert_eq!(e.count(Key::Drc), 0);
}

#[test]
fn asking_again_computes_nothing() {
    let (d, lib) = (contending(), part_library());
    let mut e = Engine::new();
    let first = e.query(&d, &lib, &bare(), Key::Erc);
    let again = e.query(&d, &lib, &bare(), Key::Erc);
    assert_eq!(first, again);
    assert_eq!((e.count(Key::Netlist), e.count(Key::Erc)), (1, 1));
}

#[test]
fn a_geometry_edit_leaves_the_electrical_queries_alone() {
    let (mut d, lib) = (contending(), part_library());
    let mut e = Engine::new();
    e.query(&d, &lib, &bare(), Key::Erc);
    e.query(&d, &lib, &bare(), Key::Drc);
    d.geom_rev = 2;
    e.query(&d, &lib, &bare(), Key::Erc);
    e.query(&d, &lib, &bare(), Key::Drc);
    assert_eq!((e.count(Key::Netlist), e.count(Key::Erc), e.count(Key::Drc)), (1, 1, 2));
    d.route_rev = 3;
    e.query(&d, &lib, &bare(), Key::Drc);
    assert_eq!((e.count(Key::Netlist), e.count(Key::Erc), e.count(Key::Drc)), (1, 1, 3));
}

#[test]
fn an_equal_netlist_cuts_the_checks_off() {
    let (mut d, lib) = (contending(), part_library());
    let mut e = Engine::new();
    let before = e.query(&d, &lib, &bare(), Key::Erc);
    e.query(&d, &lib, &bare(), Key::Drc);
    d.conn_rev = 2;
    let after = e.query(&d, &lib, &bare(), Key::Erc);
    e.query(&d, &lib, &bare(), Key::Drc);
    assert_eq!(before, after);
    assert_eq!((e.count(Key::Netlist), e.count(Key::Erc), e.count(Key::Drc)), (2, 1, 1));
}

#[test]
fn a_changed_netlist_is_checked_again() {
    let (mut d, lib) = (contending(), part_library());
    let mut e = Engine::new();
    e.query(&d, &lib, &bare(), Key::Erc);
    net(&mut d, "VCC", &[("u1", "VOUT")]);
    d.conn_rev = 2;
    let v = e.query(&d, &lib, &bare(), Key::Erc);
    assert!(v.as_erc().is_empty());
    assert_eq!((e.count(Key::Netlist), e.count(Key::Erc)), (2, 2));
    let fresh = Engine::new().query(&d, &lib, &bare(), Key::Erc);
    assert_eq!(v, fresh);
}

#[test]
fn the_design_check_finds_open_nets() {
    let (mut d, lib) = (contending(), part_library());
    net(&mut d, "VIN", &[("u1", "VIN"), ("u2", "VIN"), ("u2", "VOUT")]);
    let mut e = Engine::new();
    let v = e.query(&d, &lib, &bare(), Key::Drc);
    // The two parts stand on top of each other, so their like pins touch; the output of
    // one does not touch the inputs.
    assert_eq!(v.as_drc().len(), 1);
    assert!(matches!(&v.as_drc()[0], Violation::Unrouted { net, islands: 2 } if net.as_str() == "VIN"));
    assert!(matches!(v, QueryValue::Drc(_)));
}

/// After an undo the engine answers about the version that is back, and after a commit on
/// it about the new branch.
#[test]
fn an_undone_version_is_not_answered_for() {
    let lib = part_library();
    let mut root = contending();
    root.conn_rev = 0;
    let mut edited = contending();
    net(&mut edited, "VCC", &[("u1", "VOUT")]);
    edited.conn_rev = 1;
    let mut branch = contending();
    net(&mut branch, "VIN", &[("u1", "VOUT"), ("u2", "VOUT"), ("u2", "VIN")]);
    branch.conn_rev = 2;
    let mut h = History::new(root);
    let mut e = Engine::new();
    let ask = |e: &mut Engine, h: &History| {
        let found = e.query(h.doc(), &lib, &bare(), Key::Erc);
        assert_eq!(found, Engine::new().query(h.doc(), &lib, &bare(), Key::Erc));
        let check = e.query(h.doc(), &lib, &bare(), Key::Drc);
        assert_eq!(check, Engine::new().query(h.doc(), &lib, &bare(), Key::Drc));
        found.as_erc().len()
    };
    assert_eq!(ask(&mut e, &h), 1);
    h.commit::<String>(Ok(edited), "one driver").unwrap();
    assert_eq!(ask(&mut e, &h), 0);
    assert!(h.undo());
    assert_eq!(ask(&mut e, &h), 1);
    h.commit::<String>(Ok(branch), "a branch").unwrap();
    assert_eq!(ask(&mut e, &h), 2);
    h.checkout(1);
    assert_eq!(ask(&mut e, &h), 0);
    h.checkout(0);
    assert_eq!(ask(&mut e, &h), 1);
}
