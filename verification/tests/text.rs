//! Characters, names and decimal spellings.

use ecad_core::iface_infer::{apply_interface, split_index, split_instance};
use ecad_core::names::{Duplicate, NameMap};
use ecad_core::part::PartDef;
use ecad_core::text::{cat3, int_string, is_whitespace, push_str, str_eq, str_lt};

#[test]
fn white_space_is_the_unicode_property() {
    for n in 0..=0x10_ffff_u32 {
        if let Some(c) = char::from_u32(n) {
            assert_eq!(is_whitespace(c), c.is_whitespace(), "U+{n:04X}");
        }
    }
}

#[test]
fn strings_order_by_code_point() {
    let words = ["", "A", "AB", "B", "GND", "GND1", "GNDA", "a", "µ", "é", "é1", "😀"];
    for a in words {
        for b in words {
            assert_eq!(str_lt(a, b), a < b, "{a:?} {b:?}");
            assert_eq!(str_eq(a, b), a == b, "{a:?} {b:?}");
        }
    }
}

#[test]
fn integers_are_spelled_in_decimal() {
    for n in [0, 7, 10, -1, -10, 1_000_000_007, i64::MAX as i128, i64::MIN as i128] {
        assert_eq!(int_string(n), n.to_string());
    }
    assert_eq!(int_string(i128::MAX), i128::MAX.to_string());
}

#[test]
fn texts_are_joined() {
    assert_eq!(cat3("a", "—", "c"), "a—c");
    let mut v = vec!['x'];
    push_str(&mut v, "µm");
    assert_eq!(v, vec!['x', 'µ', 'm']);
}

#[test]
fn an_instance_name_is_raised() {
    assert_eq!(split_instance("uart3_tx"), ("3".into(), "UART_TX".into()));
    assert_eq!(split_instance("straße"), ("".into(), "STRASSE".into()));
    assert_eq!(split_instance("0_tx"), ("".into(), "0_TX".into()));
}

#[test]
fn only_digits_between_letters_and_an_underscore_are_an_index() {
    assert_eq!(split_index("uart12_tx"), ("12".into(), "uart_tx".into()));
    for name in ["", "tx", "tx0", "0_tx", "uart_0tx", "uart1 tx", "uärt1_tx"] {
        assert_eq!(split_index(name), ("".into(), name.into()));
    }
}

#[test]
fn an_unknown_interface_is_quoted() {
    let mut part = PartDef {
        name: "P".into(),
        pins: vec![],
        interfaces: NameMap::new(),
        graphics: vec![],
        texts: vec![],
        courtyard: None,
        class: None,
    };
    let e = apply_interface(&mut part, "C\"AN", "c", &[]).unwrap_err();
    assert_eq!(e, "apply_interface: unknown interface type \"C\\\"AN\"");
}

#[test]
fn a_map_reads_back_what_was_put_last() {
    let mut m: NameMap<String> = NameMap::new();
    for (k, v) in [("b", "1"), ("a", "2"), ("c", "3"), ("b", "4")] {
        m.insert(k.into(), v.into());
    }
    let keys: Vec<&String> = (0..m.len()).map(|i| m.key_at(i)).collect();
    assert_eq!(keys, ["a", "b", "c"]);
    assert_eq!(m.get("b"), Some(&"4".to_string()));
    assert_eq!(m.get("d"), None);
    assert!(m.contains_key("a") && !m.contains_key(""));
    assert_eq!(m.duplicate(), m);
}
