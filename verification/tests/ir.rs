//! What directives contribute.

use ecad_core::coord::{Orient, Point};
use ecad_core::geom::{Role, Shape2D, Slab, ZRange};
use ecad_core::ir::{board_rect, directive_coords, directive_refs, GenDirective, RegionDecl};

fn pt(x: i64, y: i64) -> Point {
    Point { x, y }
}

fn pairs(v: &[(&str, &str)]) -> Vec<(String, String)> {
    v.iter().map(|(a, b)| (a.to_string(), b.to_string())).collect()
}

#[test]
fn a_board_rectangle_is_its_box() {
    let d = board_rect(pt(0, 0), pt(10, 20));
    let GenDirective::Board { outline } = &d else {
        panic!("a board");
    };
    assert_eq!(outline.bbox(), Some((pt(0, 0), pt(10, 20))));
    assert_eq!(directive_coords(&d).len(), 8);
    // An odd size reaches the far corner too.
    let GenDirective::Board { outline } = board_rect(pt(-3, 2), pt(4, 9)) else {
        panic!("a board");
    };
    assert_eq!(outline.points(), [pt(-3, 2), pt(4, 2), pt(4, 9), pt(-3, 9)]);
}

#[test]
fn coordinates_and_lengths_are_listed() {
    let place = GenDirective::Place { path: "u1".into(), pos: pt(3, -4) };
    assert_eq!(directive_coords(&place), [3, -4]);
    let hole = GenDirective::Hole { center: pt(1, 2), dia: 5 };
    assert_eq!(directive_coords(&hole), [1, 2, 5]);
    let near = GenDirective::Near { a: "a".into(), b: "b".into(), within: 7 };
    assert_eq!(directive_coords(&near), [7]);
    let slab = GenDirective::Slab(Slab {
        name: "F.Cu".into(),
        z: ZRange::new(9, 8),
        role: Role::Conductor,
        material: None,
    });
    assert_eq!(directive_coords(&slab), [8, 9]);
    let region = GenDirective::Region(RegionDecl {
        shape: Shape2D::disc(pt(5, 6), 1),
        role: Role::Void,
        net: None,
        layer: "F.Cu".into(),
    });
    assert_eq!(directive_coords(&region), [5, 6]);
    let turn = GenDirective::Rotate { path: "u1".into(), orient: Orient::default() };
    assert!(directive_coords(&turn).is_empty());
}

#[test]
fn references_carry_their_context() {
    let place = GenDirective::Place { path: "u1".into(), pos: pt(0, 0) };
    assert_eq!(directive_refs(&place), pairs(&[("place `u1`", "u1")]));
    let align = GenDirective::AlignX { nodes: vec!["a".into(), "b".into()] };
    assert_eq!(
        directive_refs(&align),
        pairs(&[("alignx `a`", "a"), ("alignx `b`", "b")])
    );
    let net = GenDirective::ConnectPins {
        net: "GND".into(),
        pins: pairs(&[("u1", "4"), ("u2", "GND")]),
    };
    assert_eq!(
        directive_refs(&net),
        pairs(&[("net `GND`", "u1"), ("net `GND`", "u2")])
    );
    let font = GenDirective::Font { path: "x.ttf".into() };
    assert!(directive_refs(&font).is_empty());
}
