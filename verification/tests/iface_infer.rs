//! Interfaces attached by name and by hand.

use ecad_core::coord::{Orient, Point};
use ecad_core::doc::{Component, Doc, Dof, Net, PinRef, Provenance};
use ecad_core::geom::Stackup;
use ecad_core::history::History;
use ecad_core::id::EntityId;
use ecad_core::iface_infer::{
    apply_interface, infer_from_names, infer_interfaces, registry, split_instance,
};
use ecad_core::kicad::{import_footprint, import_symbol, join_symbol_footprint, Readings};
use ecad_core::names::NameMap;
use ecad_core::part::{Dir, InterfaceDef, PartDef, PartLib, PinDef, PinRole};
use ecad_core::part::geometry::Lettering;
use ecad_core::query::{Engine, Key, Physical};
use ecad_core::route::features::SourceGeometry;

fn pin(name: &str, number: &str, off: Point) -> PinDef {
    PinDef {
        name: name.into(),
        number: number.into(),
        role: PinRole::Passive,
        offset: off,
        pad: None,
    }
}

fn part_with(pins: Vec<PinDef>) -> PartDef {
    PartDef {
        name: "P".into(),
        pins,
        interfaces: NameMap::new(),
        graphics: Vec::new(),
        texts: Vec::new(),
        courtyard: None,
        class: None,
    }
}

fn p(x: i64, y: i64) -> Point {
    Point { x, y }
}

#[test]
fn split_instance_only_splits_prefixed_index() {
    assert_eq!(split_instance("UART0_TX"), ("0".into(), "UART_TX".into()));
    assert_eq!(split_instance("UART1_RX"), ("1".into(), "UART_RX".into()));
    assert_eq!(split_instance("TX"), ("".into(), "TX".into()));
    assert_eq!(split_instance("SWDIO"), ("".into(), "SWDIO".into()));
    // A trailing data-line digit is NOT instance indexing (no `_` after digits).
    assert_eq!(split_instance("SD0"), ("".into(), "SD0".into()));
    assert_eq!(split_instance("sda"), ("".into(), "SDA".into()));
}

#[test]
fn uart_complete_set_attaches_crossed_mate() {
    let mut part = part_with(vec![
        pin("TX", "1", p(1000, 0)),
        pin("RX", "2", p(1000, -1000)),
        pin("GND", "3", p(0, 0)),
    ]);
    assert_eq!(infer_interfaces(&mut part), 1);
    let iface = part.interfaces.get("uart").unwrap();
    assert_eq!(iface.kind, "UART");
    assert_eq!(*iface.signals.get("tx").unwrap(), Dir::Out);
    assert_eq!(*iface.signals.get("rx").unwrap(), Dir::In);
    // The crossing that makes the swap unrepresentable is baked in.
    assert_eq!(
        iface.mate,
        vec![("tx".into(), "rx".into()), ("rx".into(), "tx".into())]
    );
    // Offsets copied from the real pads → resolves to physical geometry.
    assert_eq!(part.pin_offset("uart.tx"), Some(p(1000, 0)));
    assert_eq!(part.pin_offset("uart.rx"), Some(p(1000, -1000)));
    // And the interface signal resolves for connection like a toy part.
    assert_eq!(part.pin_role("uart.tx"), Some(PinRole::Output));
    assert_eq!(
        part.resolve_selector("uart.tx"),
        vec!["uart.tx".to_string()]
    );
}

#[test]
fn partial_set_attaches_nothing() {
    // I2C needs both SDA and SCL; a lone SDA is not enough.
    let mut part = part_with(vec![pin("SDA", "1", p(0, 0)), pin("VCC", "2", p(1, 1))]);
    assert_eq!(infer_interfaces(&mut part), 0);
    assert!(part.interfaces.is_empty());
}

#[test]
fn duplicate_candidate_attaches_nothing() {
    // Two pins both alias to `tx` at the same (empty) instance key → ambiguous.
    let mut part = part_with(vec![
        pin("TX", "1", p(0, 0)),
        pin("TXD", "2", p(1, 0)), // second tx spelling, same instance
        pin("RX", "3", p(0, 1)),
    ]);
    assert_eq!(infer_interfaces(&mut part), 0);
    assert!(part.interfaces.is_empty());
}

#[test]
fn indexed_multi_instance_grouping() {
    let mut part = part_with(vec![
        pin("UART0_TX", "1", p(0, 0)),
        pin("UART0_RX", "2", p(0, 1)),
        pin("UART1_TX", "3", p(1, 0)),
        pin("UART1_RX", "4", p(1, 1)),
    ]);
    assert_eq!(infer_interfaces(&mut part), 2);
    assert_eq!(part.interfaces.get("uart0").unwrap().kind, "UART");
    assert_eq!(part.interfaces.get("uart1").unwrap().kind, "UART");
    assert_eq!(part.pin_offset("uart0.tx"), Some(p(0, 0)));
    assert_eq!(part.pin_offset("uart1.rx"), Some(p(1, 1)));
}

#[test]
fn spi_and_i2c_buses_are_bidir_straight_mate() {
    let mut part = part_with(vec![
        pin("SCK", "1", p(0, 0)),
        pin("MOSI", "2", p(0, 1)),
        pin("MISO", "3", p(0, 2)),
        pin("CS", "4", p(0, 3)),
        pin("SDA", "5", p(1, 0)),
        pin("SCL", "6", p(1, 1)),
    ]);
    assert_eq!(infer_interfaces(&mut part), 2);
    let spi = part.interfaces.get("spi").unwrap();
    assert!((0..spi.signals.len()).all(|i| *spi.signals.value_at(i) == Dir::Bidir));
    assert!(spi.mate.iter().all(|(a, b)| a == b), "straight mate");
    let i2c = part.interfaces.get("i2c").unwrap();
    assert_eq!(*i2c.signals.get("sda").unwrap(), Dir::Bidir);
    assert_eq!(*i2c.signals.get("scl").unwrap(), Dir::Bidir);
    // Straight mate, in registry-declaration order (sda, scl).
    assert_eq!(
        i2c.mate,
        vec![("sda".into(), "sda".into()), ("scl".into(), "scl".into())]
    );
}

#[test]
fn explicit_overlay_binds_named_pins() {
    // Names the inference would never match (vendor's own spellings).
    let mut part = part_with(vec![
        pin("SERIAL_OUT", "1", p(5, 0)),
        pin("SERIAL_IN", "2", p(5, 1)),
    ]);
    assert_eq!(infer_interfaces(&mut part), 0, "no alias matches these");
    apply_interface(
        &mut part,
        "uart",
        "console",
        &[("tx", "SERIAL_OUT"), ("rx", "SERIAL_IN")],
    )
    .unwrap();
    let iface = part.interfaces.get("console").unwrap();
    assert_eq!(iface.kind, "UART");
    assert_eq!(part.pin_offset("console.tx"), Some(p(5, 0)));
    assert_eq!(part.pin_role("console.rx"), Some(PinRole::Input));
}

#[test]
fn explicit_overlay_coexists_with_and_overrides_inference() {
    // A part with an inferable UART plus a vendor-named second link.
    let mut part = part_with(vec![
        pin("TX", "1", p(0, 0)),
        pin("RX", "2", p(0, 1)),
        pin("DBG_OUT", "3", p(2, 0)),
        pin("DBG_IN", "4", p(2, 1)),
    ]);
    // Explicit first: claim the `uart` port name for the vendor pins.
    apply_interface(
        &mut part,
        "UART",
        "uart",
        &[("tx", "DBG_OUT"), ("rx", "DBG_IN")],
    )
    .unwrap();
    // Inference must NOT overwrite the taken port; the TX/RX pins find no free
    // `uart` name, so nothing new attaches.
    assert_eq!(infer_interfaces(&mut part), 0);
    // The explicit binding stands (points at the DBG pads, not TX/RX).
    assert_eq!(part.pin_offset("uart.tx"), Some(p(2, 0)));
}

#[test]
fn explicit_overlay_strict_errors() {
    let mut part = part_with(vec![pin("A", "1", p(0, 0)), pin("B", "2", p(0, 1))]);
    // Unknown type.
    assert!(apply_interface(&mut part, "CAN", "c", &[]).is_err());
    // Unknown signal for the type.
    assert!(apply_interface(&mut part, "uart", "u", &[("clk", "A")]).is_err());
    // Incomplete set (rx unbound).
    assert!(apply_interface(&mut part, "uart", "u", &[("tx", "A")]).is_err());
    // Selector matching no pad.
    assert!(apply_interface(&mut part, "uart", "u", &[("tx", "A"), ("rx", "NOPE")]).is_err());
    // A good one, then a second claim on the same port name errors.
    apply_interface(&mut part, "uart", "u", &[("tx", "A"), ("rx", "B")]).unwrap();
    assert!(apply_interface(&mut part, "uart", "u", &[("tx", "A"), ("rx", "B")]).is_err());
}

/// An RP2350-style imported part gains SWD cleanly and does NOT hallucinate a UART
/// (the real RP2350 UART is GPIO-muxed, so there are no fixed TX/RX pins — honest
/// inference attaches nothing there). Built from the import path so it exercises
/// `join_symbol_footprint` output, not a synthetic PartDef.
#[test]
fn imported_rp2350_style_gains_swd_and_uart_when_named() {
    let sym = r#"
(symbol "MCU"
(pin bidirectional line (at 0 0 0) (length 1) (name "SWDIO") (number "1"))
(pin bidirectional line (at 0 0 0) (length 1) (name "SWCLK") (number "2"))
(pin output line (at 0 0 0) (length 1) (name "UART0_TX") (number "3"))
(pin input line (at 0 0 0) (length 1) (name "UART0_RX") (number "4"))
(pin passive line (at 0 0 0) (length 1) (name "GND") (number "5"))
(pin bidirectional line (at 0 0 0) (length 1) (name "QSPI_SD0") (number "6"))
)"#;
    let fp = r#"
(footprint "MCU-FP"
(pad "1" smd rect (at 0 0) (size 1 1) (layers "F.Cu"))
(pad "2" smd rect (at 1 0) (size 1 1) (layers "F.Cu"))
(pad "3" smd rect (at 2 0) (size 1 1) (layers "F.Cu"))
(pad "4" smd rect (at 3 0) (size 1 1) (layers "F.Cu"))
(pad "5" smd rect (at 4 0) (size 1 1) (layers "F.Cu"))
(pad "6" smd rect (at 5 0) (size 1 1) (layers "F.Cu"))
)"#;
    let symbol = import_symbol(sym).unwrap();
    let footprint = import_footprint(fp, &Readings { list: vec![] }).unwrap();
    let mut part = join_symbol_footprint(&symbol, &footprint).part;
    assert!(part.interfaces.is_empty(), "join attaches no interfaces");
    let n = infer_interfaces(&mut part);
    assert_eq!(
        n, 2,
        "SWD + UART0, but NOT a QSPI (lone SD0 is a partial set)"
    );
    assert_eq!(part.interfaces.get("swd").unwrap().kind, "SWD");
    assert_eq!(part.interfaces.get("uart0").unwrap().kind, "UART");
    assert!(
        !(0..part.interfaces.len()).any(|i| part.interfaces.key_at(i).starts_with("spi")),
        "a lone QSPI_SD0 must not hallucinate an SPI"
    );
    // SWD signal resolves to the real pad offset (pad 1 at origin).
    assert_eq!(part.pin_offset("swd.swdio"), Some(p(0, 0)));
    assert_eq!(part.pin_offset("uart0.tx"), Some(p(2_000_000, 0)));
}

/// The nets that connecting two ports makes: one for each pair of the mate.
fn connect(a: (&str, &str), b: (&str, &str), iface: &InterfaceDef) -> NameMap<Net> {
    let mut nets = NameMap::new();
    for (mine, theirs) in &iface.mate {
        let name = format!("{}.{}.{}", a.0, a.1, mine);
        let members = vec![
            PinRef::new(&EntityId::new(a.0), &format!("{}.{}", a.1, mine)),
            PinRef::new(&EntityId::new(b.0), &format!("{}.{}", b.1, theirs)),
        ];
        nets.insert(name.clone(), Net { name, members });
    }
    nets
}

/// End-to-end: an interface attached by *inference* mates through the netlist exactly
/// like a toy part. Two imported parts each gain a `uart` by inference; connecting the
/// two ports must produce the crossed tx→rx net and make the tx↔tx swap unexpressible.
#[test]
fn inferred_interface_mates_crossed_through_netlist() {
    // A UART-bearing part built from the import path, then inferred.
    let uart_part = || {
        let sym = r#"
(symbol "X"
(pin output line (at 0 0 0) (length 1) (name "TX") (number "1"))
(pin input line (at 0 0 0) (length 1) (name "RX") (number "2"))
(pin passive line (at 0 0 0) (length 1) (name "GND") (number "3"))
)"#;
        let fp = r#"
(footprint "X-FP"
(pad "1" smd rect (at 0 0) (size 1 1) (layers "F.Cu"))
(pad "2" smd rect (at 1 0) (size 1 1) (layers "F.Cu"))
(pad "3" smd rect (at 2 0) (size 1 1) (layers "F.Cu"))
)"#;
        let symbol = import_symbol(sym).unwrap();
        let footprint = import_footprint(fp, &Readings { list: vec![] }).unwrap();
        let mut part = join_symbol_footprint(&symbol, &footprint).part;
        assert_eq!(infer_interfaces(&mut part), 1);
        part
    };

    let mut lib: PartLib = NameMap::new();
    let mut a = uart_part();
    a.name = "PartA".into();
    let mut b = uart_part();
    b.name = "PartB".into();
    lib.insert("PartA".into(), a);
    lib.insert("PartB".into(), b);

    let mut doc = Doc::default();
    for (id, part) in [("u1", "PartA"), ("u2", "PartB")] {
        doc.components.insert(
            id.into(),
            Component {
                id: EntityId::new(id),
                part: part.into(),
                pos: Dof { value: p(0, 0), prov: Provenance::Free },
                orient: Orient::default(),
                params: NameMap::new(),
                label: None,
            },
        );
    }
    let port = lib.get("PartA").unwrap().interfaces.get("uart").unwrap();
    doc.nets = connect(("u1", "uart"), ("u2", "uart"), port);
    let mut h = History::new(Doc::default());
    h.commit::<String>(Ok(doc), "s").unwrap();
    let mut eng = Engine::new();
    let bare = Physical {
        su: Stackup { slabs: vec![] },
        src: SourceGeometry {
            features: Ok(vec![]),
            regions: vec![],
            refdes: NameMap::new(),
            labels: NameMap::new(),
            font: Lettering { drawn: vec![] },
        },
        fills: vec![],
        spills: vec![],
        islands: vec![],
    };
    let nl = eng.query(h.doc(), &lib, &bare, Key::Netlist);
    let nl = nl.as_netlist();
    let tx_net = (0..nl.len())
        .map(|i| nl.value_at(i))
        .find(|net| {
            net.pins
                .iter()
                .any(|(p, _)| p.pin == "uart.tx" && p.comp.as_str() == "u1")
        })
        .expect("u1 tx net");
    let names: Vec<String> = tx_net
        .pins
        .iter()
        .map(|(p, _)| format!("{}.{}", p.comp.as_str(), p.pin))
        .collect();
    // Crossed: u1.tx shares a net with u2.rx, never u2.tx.
    assert!(names.contains(&"u2.uart.rx".to_string()), "got {names:?}");
    assert!(!names.contains(&"u2.uart.tx".to_string()), "got {names:?}");
}

/// Inference goes by the split names that it is given, whatever the pins are called.
#[test]
fn split_names_decide_what_is_inferred() {
    let mut part = part_with(vec![pin("A", "1", p(7, 0)), pin("B", "2", p(8, 0))]);
    let names = vec![
        ("3".to_string(), "UART_TX".to_string()),
        ("3".to_string(), "UART_RX".to_string()),
    ];
    assert_eq!(infer_from_names(&mut part, &names), 1);
    assert_eq!(part.pin_offset("uart3.tx"), Some(p(7, 0)));
    assert_eq!(part.pin_role("uart3.rx"), Some(PinRole::Input));
    // A second pass finds the port taken and changes nothing.
    assert_eq!(infer_from_names(&mut part, &names), 0);
}

/// Each refusal says what is wrong, and leaves the part as it was.
#[test]
fn an_overlay_is_refused_with_its_reason() {
    let fresh = || part_with(vec![pin("A", "1", p(0, 0)), pin("A", "2", p(0, 1))]);
    let refuse = |bindings: &[(&str, &str)]| {
        let mut part = fresh();
        let e = apply_interface(&mut part, "uart", "u", bindings).unwrap_err();
        assert_eq!(part, fresh());
        e
    };
    assert!(refuse(&[("clk", "A")]).contains("has no signal `clk`"));
    assert!(refuse(&[("tx", "1"), ("tx", "2")]).contains("signal `tx` bound"));
    assert!(refuse(&[("tx", "1")]).contains("signal `rx` is unbound"));
    assert!(refuse(&[("tx", "A"), ("rx", "2")]).contains("resolves to 2 pads"));
    assert!(refuse(&[("tx", "1"), ("rx", "9")]).contains("resolves to 0 pads"));
}

/// Every built-in interface mates each of its signals, and only those.
#[test]
fn every_pattern_mates_all_its_signals() {
    for pattern in registry() {
        let mut own: Vec<&String> = pattern.signals.iter().map(|s| &s.0).collect();
        let mut mine: Vec<&String> = pattern.mate.iter().map(|m| &m.0).collect();
        let mut theirs: Vec<&String> = pattern.mate.iter().map(|m| &m.1).collect();
        own.sort();
        mine.sort();
        theirs.sort();
        assert_eq!(own, mine);
        assert_eq!(own, theirs);
    }
}
