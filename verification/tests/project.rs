//! The text view of a document.

use ecad_core::coord::{Orient, Point};
use ecad_core::doc::{Component, DecayReason, Doc, Dof, Net, PinRef, Provenance};
use ecad_core::id::EntityId;
use ecad_core::names::NameMap;
use ecad_core::project::render;

fn comp(id: &str, at: Point, orient: Orient, prov: Provenance) -> Component {
    Component {
        id: EntityId::new(id),
        part: "LDO".into(),
        pos: Dof { value: at, prov },
        orient,
        params: NameMap::new(),
        label: None,
    }
}

fn sample() -> Doc {
    let mut d = Doc::default();
    let turned = Orient { w: 9, x: 0, y: 0, z: 3 };
    for c in [
        comp("u2", Point { x: -5, y: 7 }, Orient::from_deg(90).unwrap(), Provenance::Pinned),
        comp("u1", Point { x: 0, y: 0 }, Orient::default(), Provenance::Free),
        comp("u3", Point { x: 1, y: 2 }, turned, Provenance::Hint),
    ] {
        d.components.insert(c.id.to_string(), c);
    }
    let pin = |c: &str, p: &str| PinRef::new(&EntityId::new(c), p);
    d.nets.insert(
        "VCC".into(),
        Net { name: "VCC".into(), members: vec![pin("u1", "VOUT"), pin("u2", "1")] },
    );
    d.nets.insert("GND".into(), Net { name: "GND".into(), members: vec![] });
    d
}

#[test]
fn components_and_nets_come_in_name_order() {
    assert_eq!(
        render(&sample(), &vec![0, 0, 37]),
        "# components\n\
        \x20 u1: LDO @ (0,0) [free]\n\
        \x20 u2: LDO @ (-5,7) rot=90 [pinned]\n\
        \x20 u3: LDO @ (1,2) rot=37 [hint]\n\
        # nets\n\
        \x20 GND: \n\
        \x20 VCC: u1.VOUT — u2.1\n"
    );
    assert_eq!(render(&Doc::default(), &vec![]), "# components\n# nets\n");
}

#[test]
fn what_reconciliation_found_is_listed() {
    let mut d = Doc::default();
    d.report.decayed = vec![
        (EntityId::new("a"), DecayReason::RedundantWithDefault),
        (EntityId::new("b"), DecayReason::OverriddenByConstraint),
    ];
    d.report.pin_conflicts = vec![EntityId::new("c")];
    d.report.redundant_pins = vec![EntityId::new("d")];
    d.report.orphaned = vec![EntityId::new("e")];
    assert_eq!(
        render(&d, &vec![]),
        "# components\n# nets\n# reconciliation\n\
        \x20 ~ decayed hint `a` (matched default)\n\
        \x20 ~ decayed hint `b` (overridden by constraint)\n\
        \x20 ! pin `c` conflicts with a hard constraint\n\
        \x20 ? pin `d` no longer changes the outcome\n\
        \x20 ! orphaned override `e` (entity gone)\n"
    );
}

#[test]
fn one_moved_component_is_one_changed_line() {
    let before = render(&sample(), &vec![0, 0, 37]);
    let mut d = sample();
    let moved = comp("u2", Point { x: 6, y: 7 }, Orient::default(), Provenance::Fixed);
    d.components.insert("u2".into(), moved);
    let after = render(&d, &vec![0, 0, 37]);
    let changed: Vec<(&str, &str)> =
        before.lines().zip(after.lines()).filter(|(a, b)| a != b).collect();
    assert_eq!(
        changed,
        [("  u2: LDO @ (-5,7) rot=90 [pinned]", "  u2: LDO @ (6,7) [fixed]")]
    );
    assert_eq!(before.lines().count(), after.lines().count());
}
