//! Tokens, nested lists, and millimetres.

use ecad_core::kicad::sexp::{
    find_child, find_child_atom, mm_to_nm, nth_atom, parse, tokenize, Sexp, Tok,
};

fn atom(s: &str) -> Sexp {
    Sexp::Atom(s.into())
}

#[test]
fn a_quoted_string_is_one_atom() {
    assert_eq!(
        tokenize("(a \"b c\" \"q\\\"x\\\\\")").unwrap(),
        vec![
            Tok::Open,
            Tok::Atom("a".into()),
            Tok::Atom("b c".into()),
            Tok::Atom("q\"x\\".into()),
            Tok::Close,
        ]
    );
    assert_eq!(tokenize("\"\"").unwrap(), vec![Tok::Atom("".into())]);
}

#[test]
fn lists_nest() {
    let x = parse(" (a (b 1 (c)) d)\n").unwrap();
    assert_eq!(
        x,
        Sexp::List(vec![
            atom("a"),
            Sexp::List(vec![atom("b"), atom("1"), Sexp::List(vec![atom("c")])]),
            atom("d"),
        ])
    );
    let v = x.as_list().unwrap();
    assert_eq!(nth_atom(v, 0), Some("a"));
    assert_eq!(nth_atom(v, 1), None);
    assert_eq!(nth_atom(v, 9), None);
    assert_eq!(find_child(v, "b").unwrap().len(), 3);
    assert!(find_child(v, "d").is_none());
    assert_eq!(find_child_atom(v, "b", 1), Some("1"));
    assert_eq!(x.list_headed("a").unwrap().len(), 3);
    assert!(x.list_headed("b").is_none());
    assert_eq!(v[2].as_atom(), Some("d"));
}

#[test]
fn what_is_no_expression_is_refused() {
    let err = |s: &str| parse(s).unwrap_err();
    assert_eq!(err("(a"), "unterminated list (missing ')')");
    assert_eq!(err(")"), "expected '(' at start");
    assert_eq!(err(""), "expected '(' at start");
    assert_eq!(err("(a) b"), "trailing tokens after top-level expression");
    assert_eq!(err("(a \"b"), "unterminated quoted string");
    assert_eq!(err("(a \"b\\"), "trailing escape in quoted string");
}

#[test]
fn millimetres_become_nanometres() {
    let ok = |s: &str| mm_to_nm(s).unwrap();
    assert_eq!(ok("1.325"), 1_325_000);
    assert_eq!(ok(" -2.61 "), -2_610_000);
    assert_eq!(ok("+.5"), 500_000);
    assert_eq!(ok("7."), 7_000_000);
    assert_eq!(ok("0.0000005"), 1);
    assert_eq!(ok("-0.0000005"), -1);
    assert_eq!(ok("0.00000049"), 0);
    assert_eq!(ok("1000"), 1_000_000_000);
}

#[test]
fn what_is_no_length_is_refused() {
    let err = |s: &str| mm_to_nm(s).unwrap_err();
    assert_eq!(err("  "), "empty number");
    assert_eq!(err("-."), "malformed number: \"-.\"");
    assert_eq!(err("1e3"), "non-numeric coordinate: \"1e3\"");
    assert_eq!(err("99999999999999999999"), "integer overflow: \"99999999999999999999\"");
    assert_eq!(err("9223372036854775807"), "coordinate overflow: \"9223372036854775807\"");
    assert!(err("1000.000001").starts_with("coordinate 1000000001 nm exceeds the ±1000000000 nm"));
}
