//! The built-in part library.

use super::{
    Dir, FpGraphic, FpText, GraphicV, IfaceV, InterfaceDef, PartDef, PartLib, PartV, PinDef,
    PinRole, PinV, TextV,
};
use crate::coord::Point;
use crate::names;
use crate::names::NameMap;
use vstd::prelude::*;

verus! {

/// A point in whole millimetres.
pub open spec fn at_mm(x: int, y: int) -> Point {
    Point { x: (x * 1_000_000) as i64, y: (y * 1_000_000) as i64 }
}

/// A pin without a footprint, its number the same as its name.
pub open spec fn bare_pin(name: Seq<char>, role: PinRole, offset: Point) -> PinV {
    PinV { name, number: name, role, offset, pad: None }
}

/// A part without a footprint.
pub open spec fn bare_part(
    name: Seq<char>,
    pins: Seq<PinV>,
    interfaces: Seq<(Seq<char>, IfaceV)>,
) -> PartV {
    PartV {
        name,
        pins,
        interfaces,
        graphics: Seq::empty(),
        texts: Seq::empty(),
        courtyard: None,
        class: None,
    }
}

/// The UART interface: `tx` drives, `rx` listens, and two instances mate crossed.
pub open spec fn uart_iface() -> IfaceV {
    IfaceV {
        kind: "UART"@,
        signals: names::put(
            names::put(Seq::empty(), "tx"@, Dir::Out),
            "rx"@,
            Dir::In,
        ),
        offsets: names::put(
            names::put(Seq::empty(), "tx"@, at_mm(3, 1)),
            "rx"@,
            at_mm(3, -1),
        ),
        mate: seq![("tx"@, "rx"@), ("rx"@, "tx"@)],
    }
}

/// The four parts of the library.
pub open spec fn library_parts() -> Seq<(Seq<char>, PartV)> {
    let ldo = bare_part(
        "LDO"@,
        seq![
            bare_pin("VIN"@, PinRole::PowerIn, at_mm(-2, 0)),
            bare_pin("VOUT"@, PinRole::PowerOut, at_mm(2, 0)),
            bare_pin("GND"@, PinRole::Passive, at_mm(0, -2)),
        ],
        Seq::empty(),
    );
    let cap = bare_part(
        "Cap"@,
        seq![
            bare_pin("p1"@, PinRole::Passive, at_mm(-1, 0)),
            bare_pin("p2"@, PinRole::Passive, at_mm(1, 0)),
        ],
        Seq::empty(),
    );
    let pins = seq![
        bare_pin("VDD"@, PinRole::PowerIn, at_mm(-3, 3)),
        bare_pin("GND"@, PinRole::Passive, at_mm(-3, -3)),
    ];
    let ports = names::put(Seq::empty(), "uart"@, uart_iface());
    names::put(
        names::put(
            names::put(names::put(Seq::empty(), "LDO"@, ldo), "Cap"@, cap),
            "MCU"@,
            bare_part("MCU"@, pins, ports),
        ),
        "Sensor"@,
        bare_part("Sensor"@, pins, ports),
    )
}

/// The UART interface.
pub fn uart() -> (r: InterfaceDef)
    ensures
        r@ == uart_iface(),
{
    let mut signals: NameMap<Dir> = NameMap::new();
    signals.insert("tx".to_owned(), Dir::Out);
    signals.insert("rx".to_owned(), Dir::In);
    let mut offsets: NameMap<Point> = NameMap::new();
    offsets.insert("tx".to_owned(), Point::mm(3, 1));
    offsets.insert("rx".to_owned(), Point::mm(3, -1));
    let mut mate: Vec<(String, String)> = Vec::new();
    mate.push(("tx".to_owned(), "rx".to_owned()));
    mate.push(("rx".to_owned(), "tx".to_owned()));
    let r = InterfaceDef { kind: "UART".to_owned(), signals, offsets, mate };
    assert(r@.mate =~= uart_iface().mate);
    r
}

/// A pin without a footprint, its number the same as its name.
pub fn pin(name: &str, role: PinRole, offset: Point) -> (r: PinDef)
    ensures
        r@ == bare_pin(name@, role, offset),
{
    PinDef { name: name.to_owned(), number: name.to_owned(), role, offset, pad: None }
}

fn part(name: &str, pins: Vec<PinDef>, interfaces: NameMap<InterfaceDef>) -> (r: PartDef)
    ensures
        r@ == bare_part(name@, super::pin_views(pins@), interfaces@),
{
    let graphics: Vec<FpGraphic> = Vec::new();
    let texts: Vec<FpText> = Vec::new();
    assert(super::graphic_views(graphics@) =~= Seq::<GraphicV>::empty());
    assert(super::text_views(texts@) =~= Seq::<TextV>::empty());
    PartDef {
        name: name.to_owned(),
        pins,
        interfaces,
        graphics,
        texts,
        courtyard: None,
        class: None,
    }
}

fn serial_part(name: &str) -> (r: PartDef)
    ensures
        r@ == bare_part(
            name@,
            seq![
                bare_pin("VDD"@, PinRole::PowerIn, at_mm(-3, 3)),
                bare_pin("GND"@, PinRole::Passive, at_mm(-3, -3)),
            ],
            names::put(Seq::empty(), "uart"@, uart_iface()),
        ),
{
    let mut pins: Vec<PinDef> = Vec::new();
    pins.push(pin("VDD", PinRole::PowerIn, Point::mm(-3, 3)));
    pins.push(pin("GND", PinRole::Passive, Point::mm(-3, -3)));
    let mut ports: NameMap<InterfaceDef> = NameMap::new();
    ports.insert("uart".to_owned(), uart());
    let r = part(name, pins, ports);
    assert(r@.pins =~= seq![
        bare_pin("VDD"@, PinRole::PowerIn, at_mm(-3, 3)),
        bare_pin("GND"@, PinRole::Passive, at_mm(-3, -3)),
    ]);
    r
}

/// A small built-in library: a regulator, a capacitor, a controller and a sensor.
pub fn part_library() -> (r: PartLib)
    ensures
        r@ == library_parts(),
        names::sorted(r@),
{
    let mut lib: PartLib = NameMap::new();
    let mut ldo: Vec<PinDef> = Vec::new();
    ldo.push(pin("VIN", PinRole::PowerIn, Point::mm(-2, 0)));
    ldo.push(pin("VOUT", PinRole::PowerOut, Point::mm(2, 0)));
    ldo.push(pin("GND", PinRole::Passive, Point::mm(0, -2)));
    let ldo_part = part("LDO", ldo, NameMap::new());
    assert(ldo_part@.pins =~= seq![
        bare_pin("VIN"@, PinRole::PowerIn, at_mm(-2, 0)),
        bare_pin("VOUT"@, PinRole::PowerOut, at_mm(2, 0)),
        bare_pin("GND"@, PinRole::Passive, at_mm(0, -2)),
    ]);
    lib.insert("LDO".to_owned(), ldo_part);
    let mut cap: Vec<PinDef> = Vec::new();
    cap.push(pin("p1", PinRole::Passive, Point::mm(-1, 0)));
    cap.push(pin("p2", PinRole::Passive, Point::mm(1, 0)));
    let cap_part = part("Cap", cap, NameMap::new());
    assert(cap_part@.pins =~= seq![
        bare_pin("p1"@, PinRole::Passive, at_mm(-1, 0)),
        bare_pin("p2"@, PinRole::Passive, at_mm(1, 0)),
    ]);
    lib.insert("Cap".to_owned(), cap_part);
    lib.insert("MCU".to_owned(), serial_part("MCU"));
    lib.insert("Sensor".to_owned(), serial_part("Sensor"));
    lib
}

/// Mating two UART instances joins the sender of each side to the receiver of the other:
/// no pair joins two senders, or two receivers.
pub proof fn uart_mates_crossed(k: int)
    requires
        0 <= k < uart_iface().mate.len(),
    ensures
        ({
            let (a, b) = uart_iface().mate[k];
            let s = uart_iface().signals;
            &&& names::lookup(s, a) is Some
            &&& names::lookup(s, b) is Some
            &&& names::lookup(s, a) != names::lookup(s, b)
        }),
{
    let s0: Seq<(Seq<char>, Dir)> = Seq::empty();
    let s1 = names::put(s0, "tx"@, Dir::Out);
    reveal_strlit("tx");
    reveal_strlit("rx");
    assert("tx"@[0] != "rx"@[0]);
    names::put_keeps_sorted(s0, "tx"@, Dir::Out);
    names::put_then_lookup(s0, "tx"@, Dir::Out, "tx"@);
    names::put_then_lookup(s1, "rx"@, Dir::In, "tx"@);
    names::put_then_lookup(s1, "rx"@, Dir::In, "rx"@);
}

} // verus!
