//! Symbols: the electrical side of a part. A symbol gives each pad number a functional
//! name and an electrical type; joining it with a footprint by pad number makes a real
//! part.

use super::footprint;
use super::footprint::{has_number, import_footprint, is_text};
use super::number;
use super::number::{Num, Readings};
use super::primitive;
use super::primitive::head_is;
use super::sexp;
use super::sexp::{find_child_atom, nth_atom, parse, Sexp, SexpV};
use crate::names::NameMap;
use crate::part;
use crate::part::{
    clone_graphics, clone_opt_shape, clone_pad, clone_texts, PartDef, PartV, PinDef, PinRole,
    PinV,
};
use crate::text;
use crate::text::{cat, cat3, chars_of, debug_string, str_eq};
use vstd::prelude::*;

verus! {

/// The electrical type of a symbol pin.
#[derive(Clone, Copy, Debug, PartialEq, Eq, Structural)]
pub enum ElecType {
    Input,
    Output,
    Bidirectional,
    TriState,
    Passive,
    Free,
    Unspecified,
    PowerIn,
    PowerOut,
    OpenCollector,
    OpenEmitter,
    NoConnect,
}

/// The type that a token spells.
pub open spec fn type_of(s: Seq<char>) -> Option<ElecType> {
    if s == "input"@ {
        Some(ElecType::Input)
    } else if s == "output"@ {
        Some(ElecType::Output)
    } else if s == "bidirectional"@ {
        Some(ElecType::Bidirectional)
    } else if s == "tri_state"@ {
        Some(ElecType::TriState)
    } else if s == "passive"@ {
        Some(ElecType::Passive)
    } else if s == "free"@ {
        Some(ElecType::Free)
    } else if s == "unspecified"@ {
        Some(ElecType::Unspecified)
    } else if s == "power_in"@ {
        Some(ElecType::PowerIn)
    } else if s == "power_out"@ {
        Some(ElecType::PowerOut)
    } else if s == "open_collector"@ {
        Some(ElecType::OpenCollector)
    } else if s == "open_emitter"@ {
        Some(ElecType::OpenEmitter)
    } else if s == "no_connect"@ {
        Some(ElecType::NoConnect)
    } else {
        None
    }
}

/// The role of an electrical type: the directed and the power types keep theirs, all
/// others are passive.
pub open spec fn role_of_type(t: ElecType) -> PinRole {
    match t {
        ElecType::PowerIn => PinRole::PowerIn,
        ElecType::PowerOut => PinRole::PowerOut,
        ElecType::Output => PinRole::Output,
        ElecType::Input => PinRole::Input,
        ElecType::Bidirectional => PinRole::Bidir,
        _ => PinRole::Passive,
    }
}

impl ElecType {
    /// The type that a token spells. An unknown token is an error, not a default.
    pub fn parse(s: &str) -> (r: Result<ElecType, String>)
        ensures
            match (r, type_of(s@)) {
                (Ok(a), Some(b)) => a == b,
                (Err(e), None) => e@ == "unknown pin electrical type "@ + text::debug_text(s@),
                _ => false,
            },
    {
        if str_eq(s, "input") {
            Ok(ElecType::Input)
        } else if str_eq(s, "output") {
            Ok(ElecType::Output)
        } else if str_eq(s, "bidirectional") {
            Ok(ElecType::Bidirectional)
        } else if str_eq(s, "tri_state") {
            Ok(ElecType::TriState)
        } else if str_eq(s, "passive") {
            Ok(ElecType::Passive)
        } else if str_eq(s, "free") {
            Ok(ElecType::Free)
        } else if str_eq(s, "unspecified") {
            Ok(ElecType::Unspecified)
        } else if str_eq(s, "power_in") {
            Ok(ElecType::PowerIn)
        } else if str_eq(s, "power_out") {
            Ok(ElecType::PowerOut)
        } else if str_eq(s, "open_collector") {
            Ok(ElecType::OpenCollector)
        } else if str_eq(s, "open_emitter") {
            Ok(ElecType::OpenEmitter)
        } else if str_eq(s, "no_connect") {
            Ok(ElecType::NoConnect)
        } else {
            let q = debug_string(s);
            Err(cat("unknown pin electrical type ", q.as_str()))
        }
    }

    /// The role of this type. A type that drives only under some conditions counts as
    /// passive, which never invents a conflict of drivers.
    pub fn role(self) -> (r: PinRole)
        ensures
            r == role_of_type(self),
    {
        match self {
            ElecType::PowerIn => PinRole::PowerIn,
            ElecType::PowerOut => PinRole::PowerOut,
            ElecType::Output => PinRole::Output,
            ElecType::Input => PinRole::Input,
            ElecType::Bidirectional => PinRole::Bidir,
            _ => PinRole::Passive,
        }
    }
}

/// One pin of a symbol: its pad number, its functional name and its type.
#[derive(Debug, PartialEq, Eq)]
pub struct SymbolPin {
    pub number: String,
    pub name: String,
    pub etype: ElecType,
}

/// A symbol pin as a value.
#[verifier::ext_equal]
pub struct SymbolPinV {
    pub number: Seq<char>,
    pub name: Seq<char>,
    pub etype: ElecType,
}

impl View for SymbolPin {
    type V = SymbolPinV;

    open spec fn view(&self) -> SymbolPinV {
        SymbolPinV { number: self.number@, name: self.name@, etype: self.etype }
    }
}

/// The values of a list of symbol pins.
pub open spec fn symbol_pins(v: Seq<SymbolPin>) -> Seq<SymbolPinV> {
    Seq::new(v.len(), |i: int| v[i]@)
}

/// A symbol: its name, its pins over all units, and the footprint it names, if any.
#[derive(Debug, PartialEq, Eq)]
pub struct Symbol {
    pub name: String,
    pub pins: Vec<SymbolPin>,
    pub footprint: Option<String>,
}

/// A symbol as a value.
#[verifier::ext_equal]
pub struct SymbolV {
    pub name: Seq<char>,
    pub pins: Seq<SymbolPinV>,
    pub footprint: Option<Seq<char>>,
}

impl View for Symbol {
    type V = SymbolV;

    open spec fn view(&self) -> SymbolV {
        SymbolV {
            name: self.name@,
            pins: symbol_pins(self.pins@),
            footprint: text::opt_str(self.footprint),
        }
    }
}

// ---------------------------------------------------------------------------
// Reading a symbol.
// ---------------------------------------------------------------------------

/// Some pin has this number.
pub open spec fn has_pin(pins: Seq<SymbolPinV>, n: Seq<char>) -> bool {
    exists|i: int| 0 <= i < pins.len() && (#[trigger] pins[i]).number == n
}

/// The pins with one `(pin …)` more, if it is electrical, has a number, and its number is
/// new.
pub open spec fn with_pin(pin: Seq<SexpV>, done: Seq<SymbolPinV>) -> Seq<SymbolPinV> {
    let number = footprint::or_empty(sexp::child_atom(pin, "number"@, 1));
    let name = footprint::or_empty(sexp::child_atom(pin, "name"@, 1));
    match type_of(footprint::or_empty(sexp::atom_at(pin, 1))) {
        Some(etype) => if number.len() == 0 || has_pin(done, number) {
            done
        } else {
            done.push(SymbolPinV { number, name, etype })
        },
        None => done,
    }
}

/// The pins of the items from `i` on, unit symbols included, behind those already there.
pub open spec fn pins_from(node: Seq<SexpV>, i: int, done: Seq<SymbolPinV>) -> Seq<SymbolPinV>
    decreases node, node.len() - i,
{
    if i < 0 || i >= node.len() {
        done
    } else {
        let more = match node[i] {
            SexpV::Atom(_) => done,
            SexpV::List(l) => {
                proof {
                    assert(decreases_to!(node => node[i]));
                    assert(decreases_to!(node[i] => node[i]->List_0));
                }
                if sexp::atom_at(l, 0) == Some("pin"@) {
                    with_pin(l, done)
                } else if sexp::atom_at(l, 0) == Some("symbol"@) {
                    pins_from(l, 0, done)
                } else {
                    done
                }
            },
        };
        pins_from(node, i + 1, more)
    }
}

/// The footprint that the first property from `i` on names.
pub open spec fn footprint_from(node: Seq<SexpV>, i: int) -> Option<Seq<char>>
    decreases node.len() - i,
{
    if i < 0 || i >= node.len() {
        None
    } else {
        match sexp::headed(node[i], "property"@) {
            Some(p) => if sexp::atom_at(p, 1) == Some("Footprint"@) && footprint::or_empty(
                sexp::atom_at(p, 2),
            ).len() > 0 {
                sexp::atom_at(p, 2)
            } else {
                footprint_from(node, i + 1)
            },
            None => footprint_from(node, i + 1),
        }
    }
}

/// The symbol that a node is.
pub open spec fn symbol_of(node: Seq<SexpV>) -> Result<SymbolV, Seq<char>> {
    match sexp::atom_at(node, 1) {
        None => Err("symbol is missing its name"@),
        Some(name) => if name.len() == 0 {
            Err("symbol name is empty"@)
        } else {
            Ok(
                SymbolV {
                    name,
                    pins: pins_from(node, 0, Seq::empty()),
                    footprint: footprint_from(node, 0),
                },
            )
        },
    }
}

/// The first symbol node from `i` on that has the wanted name, if one is wanted.
pub open spec fn symbol_node_from(items: Seq<SexpV>, i: int, name: Option<Seq<char>>) -> Option<
    Seq<SexpV>,
>
    decreases items.len() - i,
{
    if i < 0 || i >= items.len() {
        None
    } else {
        match sexp::headed(items[i], "symbol"@) {
            Some(n) => if name is None || sexp::atom_at(n, 1) == name {
                Some(n)
            } else {
                symbol_node_from(items, i + 1, name)
            },
            None => symbol_node_from(items, i + 1, name),
        }
    }
}

/// The first symbol node of a library, or the bare symbol, that has the wanted name, if
/// one is wanted.
pub open spec fn symbol_node(root: SexpV, name: Option<Seq<char>>) -> Option<Seq<SexpV>> {
    match root {
        SexpV::Atom(_) => None,
        SexpV::List(items) => if sexp::atom_at(items, 0) == Some("symbol"@) {
            if name is None || sexp::atom_at(items, 1) == name {
                Some(items)
            } else {
                None
            }
        } else if sexp::atom_at(items, 0) == Some("kicad_symbol_lib"@) {
            symbol_node_from(items, 0, name)
        } else {
            None
        },
    }
}

/// The symbol of a text: the first, or the one with the wanted name.
pub open spec fn symbol_text(s: Seq<char>, name: Option<Seq<char>>) -> Result<
    SymbolV,
    Seq<char>,
> {
    match sexp::parsed(s) {
        Err(e) => Err(e),
        Ok(root) => match symbol_node(root, name) {
            Some(node) => symbol_of(node),
            None => match name {
                None => Err("no (symbol ...) found in input"@),
                Some(n) => Err("symbol "@ + text::debug_text(n) + " not found in library"@),
            },
        },
    }
}

proof fn pins_stay_numbered(node: Seq<SexpV>, i: int, done: Seq<SymbolPinV>)
    requires
        well_numbered(done),
    ensures
        well_numbered(pins_from(node, i, done)),
    decreases node, node.len() - i,
{
    if 0 <= i < node.len() {
        let more = match node[i] {
            SexpV::Atom(_) => done,
            SexpV::List(l) => if sexp::atom_at(l, 0) == Some("pin"@) {
                with_pin(l, done)
            } else if sexp::atom_at(l, 0) == Some("symbol"@) {
                pins_from(l, 0, done)
            } else {
                done
            },
        };
        match node[i] {
            SexpV::Atom(_) => {},
            SexpV::List(l) => {
                assert(decreases_to!(node => node[i]));
                assert(decreases_to!(node[i] => node[i]->List_0));
                if sexp::atom_at(l, 0) == Some("pin"@) {
                    assert forall|a: int, b: int| 0 <= a < b < more.len() implies (
                    #[trigger] more[a]).number != (#[trigger] more[b]).number by {
                        if b == done.len() {
                            assert(done[a].number != more[b].number);
                        }
                    }
                } else if sexp::atom_at(l, 0) == Some("symbol"@) {
                    pins_stay_numbered(l, 0, done);
                }
            },
        }
        pins_stay_numbered(node, i + 1, more);
    }
}

/// Pin numbers are not empty and each stands once.
pub open spec fn well_numbered(pins: Seq<SymbolPinV>) -> bool {
    &&& forall|i: int| 0 <= i < pins.len() ==> (#[trigger] pins[i]).number.len() > 0
    &&& forall|i: int, j: int|
        0 <= i < j < pins.len() ==> (#[trigger] pins[i]).number != (#[trigger] pins[j]).number
}

/// An imported symbol has each pad number at most once.
pub proof fn imported_pins_are_numbered(s: Seq<char>, name: Option<Seq<char>>)
    requires
        symbol_text(s, name) is Ok,
    ensures
        well_numbered(symbol_text(s, name)->Ok_0.pins),
        symbol_text(s, name)->Ok_0.name.len() > 0,
{
    match sexp::parsed(s) {
        Err(e) => {},
        Ok(root) => match symbol_node(root, name) {
            Some(node) => {
                pins_stay_numbered(node, 0, Seq::empty());
            },
            None => {},
        },
    }
}

fn has_symbol_pin(pins: &Vec<SymbolPin>, n: &str) -> (r: bool)
    ensures
        r == has_pin(symbol_pins(pins@), n@),
{
    let ghost ps = symbol_pins(pins@);
    let mut i: usize = 0;
    while i < pins.len()
        invariant
            i <= pins.len(),
            ps == symbol_pins(pins@),
            forall|k: int| 0 <= k < i ==> (#[trigger] ps[k]).number != n@,
        decreases pins.len() - i,
    {
        assert(ps[i as int] == pins@[i as int]@);
        if str_eq(pins[i].number.as_str(), n) {
            assert(ps[i as int].number == n@);
            return true;
        }
        i += 1;
    }
    false
}

fn text_or_empty(o: Option<&str>) -> (r: String)
    ensures
        r@ == footprint::or_empty(sexp::opt_text(o)),
{
    match o {
        Some(s) => s.to_owned(),
        None => {
            proof {
                reveal_strlit("");
                assert(""@ =~= Seq::empty());
            }
            "".to_owned()
        },
    }
}

fn add_pin(pin: &Vec<Sexp>, out: &mut Vec<SymbolPin>)
    ensures
        symbol_pins(final(out)@) == with_pin(
            sexp::node_views(pin@),
            symbol_pins(old(out)@),
        ),
{
    let token = text_or_empty(nth_atom(pin, 1));
    if let Ok(etype) = ElecType::parse(token.as_str()) {
        let name = text_or_empty(find_child_atom(pin, "name", 1));
        let number = text_or_empty(find_child_atom(pin, "number", 1));
        let cs = chars_of(number.as_str());
        if cs.len() > 0 && !has_symbol_pin(out, number.as_str()) {
            let ghost done = symbol_pins(out@);
            let p = SymbolPin { number, name, etype };
            let ghost one = p@;
            out.push(p);
            assert(symbol_pins(out@) =~= done.push(one));
        }
    }
}

/// Gather the pins of a symbol node and of its unit symbols. The first definition of a
/// number wins; entries that are not electrical or have no number are passed over.
fn collect_symbol_pins(node: &Vec<Sexp>, out: &mut Vec<SymbolPin>)
    ensures
        symbol_pins(final(out)@) == pins_from(
            sexp::node_views(node@),
            0,
            symbol_pins(old(out)@),
        ),
    decreases node,
{
    let ghost v = sexp::node_views(node@);
    let ghost want = pins_from(v, 0, symbol_pins(out@));
    let mut i: usize = 0;
    while i < node.len()
        invariant
            i <= node.len(),
            v == sexp::node_views(node@),
            want == pins_from(v, i as int, symbol_pins(out@)),
        decreases node.len() - i,
    {
        assert(v[i as int] == node@[i as int]@);
        let item = &node[i];
        match item {
            Sexp::Atom(_) => {},
            Sexp::List(l) => {
                proof {
                    sexp::list_view(*l);
                    assert(decreases_to!(node => node@[i as int]));
                    assert(decreases_to!(node@[i as int] => l));
                }
                if head_is(l, "pin") {
                    add_pin(l, out);
                } else if head_is(l, "symbol") {
                    collect_symbol_pins(l, out);
                }
            },
        }
        i += 1;
    }
}

fn find_footprint(node: &Vec<Sexp>) -> (r: Option<String>)
    ensures
        text::opt_str(r) == footprint_from(sexp::node_views(node@), 0),
{
    let ghost v = sexp::node_views(node@);
    let mut i: usize = 0;
    while i < node.len()
        invariant
            i <= node.len(),
            v == sexp::node_views(node@),
            footprint_from(v, 0) == footprint_from(v, i as int),
        decreases node.len() - i,
    {
        assert(v[i as int] == node@[i as int]@);
        if let Some(p) = node[i].list_headed("property") {
            if is_text(nth_atom(p, 1), "Footprint") {
                if let Some(s) = nth_atom(p, 2) {
                    let cs = chars_of(s);
                    if cs.len() > 0 {
                        return Some(s.to_owned());
                    }
                }
            }
        }
        i += 1;
    }
    None
}

fn symbol_from_node(node: &Vec<Sexp>) -> (r: Result<Symbol, String>)
    ensures
        primitive::agree_view(r, symbol_of(sexp::node_views(node@))),
{
    let name = match nth_atom(node, 1) {
        Some(n) => n,
        None => {
            return Err("symbol is missing its name".to_owned());
        },
    };
    let cs = chars_of(name);
    if cs.len() == 0 {
        return Err("symbol name is empty".to_owned());
    }
    let footprint = find_footprint(node);
    let mut pins: Vec<SymbolPin> = Vec::new();
    assert(symbol_pins(pins@) =~= Seq::empty());
    collect_symbol_pins(node, &mut pins);
    Ok(Symbol { name: name.to_owned(), pins, footprint })
}

fn fits_name(node: &Vec<Sexp>, name: Option<&str>) -> (r: bool)
    ensures
        r == (name is None || sexp::atom_at(sexp::node_views(node@), 1) == sexp::opt_text(name)),
{
    match name {
        None => true,
        Some(n) => is_text(nth_atom(node, 1), n),
    }
}

fn find_symbol<'a>(root: &'a Sexp, name: Option<&str>) -> (r: Option<&'a Vec<Sexp>>)
    ensures
        match (r, symbol_node(root@, sexp::opt_text(name))) {
            (Some(a), Some(b)) => sexp::node_views(a@) == b,
            (None, None) => true,
            _ => false,
        },
{
    let items = match root.as_list() {
        Some(v) => v,
        None => {
            return None;
        },
    };
    let ghost v = sexp::node_views(items@);
    if head_is(items, "symbol") {
        if fits_name(items, name) {
            return Some(items);
        }
        return None;
    }
    if !head_is(items, "kicad_symbol_lib") {
        return None;
    }
    let ghost want = symbol_node_from(v, 0, sexp::opt_text(name));
    let mut i: usize = 0;
    while i < items.len()
        invariant
            i <= items.len(),
            v == sexp::node_views(items@),
            want == symbol_node(root@, sexp::opt_text(name)),
            want == symbol_node_from(v, i as int, sexp::opt_text(name)),
        decreases items.len() - i,
    {
        assert(v[i as int] == items@[i as int]@);
        if let Some(n) = items[i].list_headed("symbol") {
            if fits_name(n, name) {
                return Some(n);
            }
        }
        i += 1;
    }
    None
}

/// Import the first symbol of a text, a bare symbol or a library.
pub fn import_symbol(text: &str) -> (r: Result<Symbol, String>)
    ensures
        primitive::agree_view(r, symbol_text(text@, None)),
{
    let root = match parse(text) {
        Ok(x) => x,
        Err(e) => {
            return Err(e);
        },
    };
    match find_symbol(&root, None) {
        Some(node) => symbol_from_node(node),
        None => Err("no (symbol ...) found in input".to_owned()),
    }
}

/// Import the symbol of that name from a library.
pub fn import_symbol_named(text: &str, name: &str) -> (r: Result<Symbol, String>)
    ensures
        primitive::agree_view(r, symbol_text(text@, Some(name@))),
{
    let root = match parse(text) {
        Ok(x) => x,
        Err(e) => {
            return Err(e);
        },
    };
    match find_symbol(&root, Some(name)) {
        Some(node) => symbol_from_node(node),
        None => {
            let q = debug_string(name);
            Err(cat3("symbol ", q.as_str(), " not found in library"))
        },
    }
}

// ---------------------------------------------------------------------------
// Joining.
// ---------------------------------------------------------------------------

/// What joining a symbol with a footprint gives: the part, the symbol pins without a pad,
/// and the pads without a symbol pin.
#[derive(Debug, PartialEq, Eq)]
pub struct JoinReport {
    pub part: PartDef,
    pub symbol_only: Vec<(String, String, PinRole)>,
    pub footprint_only: Vec<String>,
}

/// The values of the unmatched symbol pins.
pub open spec fn triples(v: Seq<(String, String, PinRole)>) -> Seq<
    (Seq<char>, Seq<char>, PinRole),
> {
    Seq::new(v.len(), |i: int| (v[i].0@, v[i].1@, v[i].2))
}

/// The last symbol pin of that number.
pub open spec fn pin_numbered(pins: Seq<SymbolPinV>, n: Seq<char>) -> Option<SymbolPinV>
    decreases pins.len(),
{
    if pins.len() == 0 {
        None
    } else if pins.last().number == n {
        Some(pins.last())
    } else {
        pin_numbered(pins.drop_last(), n)
    }
}

/// A pad joined with the symbol: the name and role of the symbol's pin of its number, if
/// there is one; the rest is the pad's.
pub open spec fn joined_pin(sym: Seq<SymbolPinV>, pad: PinV) -> PinV {
    match pin_numbered(sym, pad.number) {
        Some(p) => PinV { name: p.name, role: role_of_type(p.etype), ..pad },
        None => PinV { role: PinRole::Passive, ..pad },
    }
}

/// The part of a symbol and a footprint.
pub open spec fn joined(sym: Seq<SymbolPinV>, fp: PartV) -> PartV {
    PartV {
        pins: Seq::new(fp.pins.len(), |i: int| joined_pin(sym, fp.pins[i])),
        interfaces: Seq::empty(),
        class: None,
        ..fp
    }
}

/// The symbol pins without a pad, among the first `k`.
pub open spec fn unpadded(sym: Seq<SymbolPinV>, fp: Seq<PinV>, k: nat) -> Seq<
    (Seq<char>, Seq<char>, PinRole),
>
    decreases k,
{
    if k == 0 {
        Seq::empty()
    } else {
        let done = unpadded(sym, fp, (k - 1) as nat);
        let p = sym[k - 1];
        if footprint::numbered(fp, p.number) {
            done
        } else {
            done.push((p.number, p.name, role_of_type(p.etype)))
        }
    }
}

/// The numbers of the pads without a symbol pin, among the first `k`.
pub open spec fn unnamed(sym: Seq<SymbolPinV>, fp: Seq<PinV>, k: nat) -> Seq<Seq<char>>
    decreases k,
{
    if k == 0 {
        Seq::empty()
    } else {
        let done = unnamed(sym, fp, (k - 1) as nat);
        if pin_numbered(sym, fp[k - 1].number) is None {
            done.push(fp[k - 1].number)
        } else {
            done
        }
    }
}

/// A number is found exactly when a pin has it.
pub proof fn numbered_is_found(pins: Seq<SymbolPinV>, n: Seq<char>)
    ensures
        pin_numbered(pins, n) is Some <==> has_pin(pins, n),
        pin_numbered(pins, n) is Some ==> pin_numbered(pins, n)->0.number == n,
    decreases pins.len(),
{
    if pins.len() > 0 {
        let t = pins.drop_last();
        numbered_is_found(t, n);
        if pins.last().number == n {
            assert(pins[pins.len() - 1].number == n);
        } else if has_pin(pins, n) {
            let i = choose|i: int| 0 <= i < pins.len() && (#[trigger] pins[i]).number == n;
            assert(t[i].number == n);
        } else if has_pin(t, n) {
            let i = choose|i: int| 0 <= i < t.len() && (#[trigger] t[i]).number == n;
            assert(pins[i].number == n);
        }
    }
}

/// Joining keeps every pad: one pin for each, with its number, position and copper.
pub proof fn join_keeps_every_pad(sym: Seq<SymbolPinV>, fp: PartV, i: int)
    requires
        0 <= i < fp.pins.len(),
    ensures
        joined(sym, fp).pins.len() == fp.pins.len(),
        joined(sym, fp).pins[i].number == fp.pins[i].number,
        joined(sym, fp).pins[i].offset == fp.pins[i].offset,
        joined(sym, fp).pins[i].pad == fp.pins[i].pad,
{
}

/// Every symbol pin without a pad is reported, and only those.
pub proof fn join_reports_symbol_pins(sym: Seq<SymbolPinV>, fp: Seq<PinV>, k: nat)
    requires
        k <= sym.len(),
    ensures
        forall|i: int|
            0 <= i < k && !footprint::numbered(fp, (#[trigger] sym[i]).number) ==> unpadded(
                sym,
                fp,
                k,
            ).contains((sym[i].number, sym[i].name, role_of_type(sym[i].etype))),
        forall|j: int|
            0 <= j < unpadded(sym, fp, k).len() ==> !footprint::numbered(
                fp,
                (#[trigger] unpadded(sym, fp, k)[j]).0,
            ) && has_pin(sym, unpadded(sym, fp, k)[j].0),
    decreases k,
{
    if k > 0 {
        let done = unpadded(sym, fp, (k - 1) as nat);
        let all = unpadded(sym, fp, k);
        join_reports_symbol_pins(sym, fp, (k - 1) as nat);
        let last = (sym[k - 1].number, sym[k - 1].name, role_of_type(sym[k - 1].etype));
        assert forall|i: int|
            0 <= i < k && !footprint::numbered(fp, (#[trigger] sym[i]).number) implies all.contains(
            (sym[i].number, sym[i].name, role_of_type(sym[i].etype)),
        ) by {
            if i < k - 1 {
                let x = (sym[i].number, sym[i].name, role_of_type(sym[i].etype));
                assert(done.contains(x));
                let j = choose|j: int| 0 <= j < done.len() && done[j] == x;
                assert(all[j] == x);
            } else {
                assert(all[all.len() - 1] == last);
            }
        }
        assert forall|j: int| 0 <= j < all.len() implies !footprint::numbered(
            fp,
            (#[trigger] all[j]).0,
        ) && has_pin(sym, all[j].0) by {
            if j < done.len() {
                assert(all[j] == done[j]);
            } else {
                assert(sym[k - 1].number == all[j].0);
            }
        }
    }
}

/// Every pad without a symbol pin is reported, and only those.
pub proof fn join_reports_pads(sym: Seq<SymbolPinV>, fp: Seq<PinV>, k: nat)
    requires
        k <= fp.len(),
    ensures
        forall|i: int|
            0 <= i < k && !has_pin(sym, (#[trigger] fp[i]).number) ==> unnamed(
                sym,
                fp,
                k,
            ).contains(fp[i].number),
        forall|j: int|
            0 <= j < unnamed(sym, fp, k).len() ==> !has_pin(
                sym,
                #[trigger] unnamed(sym, fp, k)[j],
            ) && footprint::numbered(fp, unnamed(sym, fp, k)[j]),
    decreases k,
{
    if k > 0 {
        let done = unnamed(sym, fp, (k - 1) as nat);
        let all = unnamed(sym, fp, k);
        join_reports_pads(sym, fp, (k - 1) as nat);
        numbered_is_found(sym, fp[k - 1].number);
        assert forall|i: int|
            0 <= i < k && !has_pin(sym, (#[trigger] fp[i]).number) implies all.contains(
            fp[i].number,
        ) by {
            if i < k - 1 {
                let x = fp[i].number;
                assert(done.contains(x));
                let j = choose|j: int| 0 <= j < done.len() && done[j] == x;
                assert(all[j] == x);
            } else {
                assert(all[all.len() - 1] == fp[k - 1].number);
            }
        }
        assert forall|j: int| 0 <= j < all.len() implies !has_pin(sym, #[trigger] all[j])
            && footprint::numbered(fp, all[j]) by {
            if j < done.len() {
                assert(all[j] == done[j]);
            } else {
                assert(fp[k - 1].number == all[j]);
            }
        }
    }
}

fn find_pin_numbered<'a>(pins: &'a Vec<SymbolPin>, n: &str) -> (r: Option<&'a SymbolPin>)
    ensures
        match (r, pin_numbered(symbol_pins(pins@), n@)) {
            (Some(a), Some(b)) => a@ == b,
            (None, None) => true,
            _ => false,
        },
{
    let ghost ps = symbol_pins(pins@);
    let mut i: usize = pins.len();
    assert(ps.take(ps.len() as int) =~= ps);
    while i > 0
        invariant
            i <= pins.len(),
            ps == symbol_pins(pins@),
            pin_numbered(ps, n@) == pin_numbered(ps.take(i as int), n@),
        decreases i,
    {
        proof {
            let t = ps.take(i as int);
            assert(t.last() == ps[i - 1]);
            assert(t.drop_last() =~= ps.take(i - 1));
        }
        if str_eq(pins[i - 1].number.as_str(), n) {
            return Some(&pins[i - 1]);
        }
        i -= 1;
    }
    None
}

fn join_pin(symbol: &Symbol, pad: &PinDef) -> (r: (PinDef, bool))
    ensures
        r.0@ == joined_pin(symbol@.pins, pad@),
        r.1 == (pin_numbered(symbol@.pins, pad@.number) is Some),
{
    match find_pin_numbered(&symbol.pins, pad.number.as_str()) {
        Some(p) => (
            PinDef {
                name: p.name.clone(),
                number: pad.number.clone(),
                role: p.etype.role(),
                offset: pad.offset,
                pad: clone_pad(&pad.pad),
            },
            true,
        ),
        None => (
            PinDef {
                name: pad.name.clone(),
                number: pad.number.clone(),
                role: PinRole::Passive,
                offset: pad.offset,
                pad: clone_pad(&pad.pad),
            },
            false,
        ),
    }
}

fn unmatched_pins(symbol: &Symbol, fp: &PartDef) -> (r: Vec<(String, String, PinRole)>)
    ensures
        triples(r@) == unpadded(symbol@.pins, fp@.pins, symbol@.pins.len()),
{
    let ghost ps = symbol@.pins;
    let mut out: Vec<(String, String, PinRole)> = Vec::new();
    let mut i: usize = 0;
    assert(triples(out@) =~= Seq::empty());
    while i < symbol.pins.len()
        invariant
            i <= symbol.pins.len(),
            ps == symbol@.pins,
            ps.len() == symbol.pins.len(),
            triples(out@) == unpadded(ps, fp@.pins, i as nat),
        decreases symbol.pins.len() - i,
    {
        let p = &symbol.pins[i];
        assert(ps[i as int] == p@);
        if !has_number(&fp.pins, p.number.as_str()) {
            let ghost done = triples(out@);
            out.push((p.number.clone(), p.name.clone(), p.etype.role()));
            assert(triples(out@) =~= done.push((p@.number, p@.name, role_of_type(p@.etype))));
        }
        i += 1;
    }
    out
}

/// Join a symbol with a footprint by pad number. The result has one pin for each pad;
/// where the symbol has a pin of that number, the pad takes its name and role. What does
/// not match on either side is reported.
pub fn join_symbol_footprint(symbol: &Symbol, footprint: &PartDef) -> (r: JoinReport)
    ensures
        r.part@ == joined(symbol@.pins, footprint@),
        triples(r.symbol_only@) == unpadded(
            symbol@.pins,
            footprint@.pins,
            symbol@.pins.len(),
        ),
        text::strs(r.footprint_only@) == unnamed(
            symbol@.pins,
            footprint@.pins,
            footprint@.pins.len(),
        ),
{
    let ghost fps = footprint@.pins;
    let ghost want = joined(symbol@.pins, footprint@).pins;
    let mut pins: Vec<PinDef> = Vec::new();
    let mut footprint_only: Vec<String> = Vec::new();
    let mut i: usize = 0;
    assert(text::strs(footprint_only@) =~= Seq::empty());
    while i < footprint.pins.len()
        invariant
            i <= footprint.pins.len(),
            fps == footprint@.pins,
            fps.len() == footprint.pins.len(),
            want == joined(symbol@.pins, footprint@).pins,
            pins.len() == i,
            forall|k: int| 0 <= k < i ==> (#[trigger] pins@[k])@ == want[k],
            text::strs(footprint_only@) == unnamed(symbol@.pins, fps, i as nat),
        decreases footprint.pins.len() - i,
    {
        let pad = &footprint.pins[i];
        assert(fps[i as int] == pad@);
        let (pin, known) = join_pin(symbol, pad);
        if !known {
            let ghost done = text::strs(footprint_only@);
            footprint_only.push(pad.number.clone());
            assert(text::strs(footprint_only@) =~= done.push(pad@.number));
        }
        pins.push(pin);
        i += 1;
    }
    assert(part::pin_views(pins@) =~= want);
    let symbol_only = unmatched_pins(symbol, footprint);
    let part = PartDef {
        name: footprint.name.clone(),
        pins,
        interfaces: NameMap::new(),
        graphics: clone_graphics(&footprint.graphics),
        texts: clone_texts(&footprint.texts),
        courtyard: clone_opt_shape(&footprint.courtyard),
        class: None,
    };
    JoinReport { part, symbol_only, footprint_only }
}

/// The name of a role.
pub open spec fn role_name(r: PinRole) -> Seq<char> {
    match r {
        PinRole::PowerIn => "PowerIn"@,
        PinRole::PowerOut => "PowerOut"@,
        PinRole::Output => "Output"@,
        PinRole::Input => "Input"@,
        PinRole::Bidir => "Bidir"@,
        PinRole::Passive => "Passive"@,
    }
}

/// The first `k` strings, quoted and separated by commas.
pub open spec fn quoted_list(v: Seq<Seq<char>>, k: nat) -> Seq<char>
    decreases k,
{
    if k == 0 {
        Seq::empty()
    } else if k == 1 {
        text::debug_text(v[0])
    } else {
        quoted_list(v, (k - 1) as nat) + ", "@ + text::debug_text(v[k - 1])
    }
}

/// How a list of strings is shown in a complaint.
pub open spec fn shown_list(v: Seq<Seq<char>>) -> Seq<char> {
    "["@ + quoted_list(v, v.len()) + "]"@
}

/// How an unmatched symbol pin is shown in a complaint.
pub open spec fn shown_pin(p: (Seq<char>, Seq<char>, PinRole)) -> Seq<char> {
    p.0 + "("@ + p.1 + ","@ + role_name(p.2) + ")"@
}

/// The unmatched symbol pins as shown.
pub open spec fn shown_pins(v: Seq<(Seq<char>, Seq<char>, PinRole)>) -> Seq<Seq<char>> {
    Seq::new(v.len(), |i: int| shown_pin(v[i]))
}

/// The part of a symbol text and a footprint text, refused when anything does not match.
pub open spec fn part_text(s: Seq<char>, f: Seq<char>, rs: Seq<(Seq<char>, Num)>) -> Result<
    PartV,
    Seq<char>,
> {
    match symbol_text(s, None) {
        Err(e) => Err(e),
        Ok(sym) => match footprint::footprint(f, rs) {
            Err(e) => Err(e),
            Ok(fp) => {
                let loose = unpadded(sym.pins, fp.pins, sym.pins.len());
                let bare = unnamed(sym.pins, fp.pins, fp.pins.len());
                if loose.len() > 0 || bare.len() > 0 {
                    Err(
                        "symbol/footprint pin mismatch joining "@ + text::debug_text(fp.name)
                            + ": symbol-only pads "@ + shown_list(shown_pins(loose))
                            + ", footprint-only pads "@ + shown_list(bare),
                    )
                } else {
                    Ok(joined(sym.pins, fp))
                }
            },
        },
    }
}

fn show_role(r: PinRole) -> (s: String)
    ensures
        s@ == role_name(r),
{
    match r {
        PinRole::PowerIn => "PowerIn".to_owned(),
        PinRole::PowerOut => "PowerOut".to_owned(),
        PinRole::Output => "Output".to_owned(),
        PinRole::Input => "Input".to_owned(),
        PinRole::Bidir => "Bidir".to_owned(),
        PinRole::Passive => "Passive".to_owned(),
    }
}

fn show_list(v: &Vec<String>) -> (r: String)
    ensures
        r@ == shown_list(text::strs(v@)),
{
    let ghost s = text::strs(v@);
    let mut body: String = text_or_empty(None);
    let mut i: usize = 0;
    while i < v.len()
        invariant
            i <= v.len(),
            s == text::strs(v@),
            body@ == quoted_list(s, i as nat),
        decreases v.len() - i,
    {
        let q = debug_string(v[i].as_str());
        assert(s[i as int] == v@[i as int]@);
        if i == 0 {
            body = q;
        } else {
            body = cat3(body.as_str(), ", ", q.as_str());
        }
        i += 1;
    }
    cat3("[", body.as_str(), "]")
}

fn show_pins(v: &Vec<(String, String, PinRole)>) -> (r: Vec<String>)
    ensures
        text::strs(r@) == shown_pins(triples(v@)),
{
    let ghost t = triples(v@);
    let mut out: Vec<String> = Vec::new();
    let mut i: usize = 0;
    while i < v.len()
        invariant
            i <= v.len(),
            t == triples(v@),
            out.len() == i,
            forall|k: int| 0 <= k < i ==> (#[trigger] out@[k])@ == shown_pin(t[k]),
        decreases v.len() - i,
    {
        let p = &v[i];
        let head = cat3(p.0.as_str(), "(", p.1.as_str());
        let role = show_role(p.2);
        let body = cat3(head.as_str(), ",", role.as_str());
        out.push(cat(body.as_str(), ")"));
        i += 1;
    }
    assert(text::strs(out@) =~= shown_pins(t));
    out
}

/// Import a symbol and a footprint and join them. Any pin or pad without its counterpart
/// is an error that names them all, so a missing power pin cannot pass unnoticed.
pub fn import_part(symbol_text: &str, footprint_text: &str, rs: &Readings) -> (r: Result<
    PartDef,
    String,
>)
    requires
        number::readable(rs@),
    ensures
        primitive::agree_view(r, part_text(symbol_text@, footprint_text@, rs@)),
{
    let symbol = match import_symbol(symbol_text) {
        Ok(s) => s,
        Err(e) => {
            return Err(e);
        },
    };
    let footprint = match import_footprint(footprint_text, rs) {
        Ok(f) => f,
        Err(e) => {
            return Err(e);
        },
    };
    let report = join_symbol_footprint(&symbol, &footprint);
    assert(triples(report.symbol_only@).len() == report.symbol_only.len());
    assert(text::strs(report.footprint_only@).len() == report.footprint_only.len());
    if report.symbol_only.len() > 0 || report.footprint_only.len() > 0 {
        let name = debug_string(footprint.name.as_str());
        let loose = show_list(&show_pins(&report.symbol_only));
        let bare = show_list(&report.footprint_only);
        let head = cat3(
            "symbol/footprint pin mismatch joining ",
            name.as_str(),
            ": symbol-only pads ",
        );
        let more = cat3(head.as_str(), loose.as_str(), ", footprint-only pads ");
        return Err(cat(more.as_str(), bare.as_str()));
    }
    Ok(report.part)
}

// ---------------------------------------------------------------------------
// Role maps.
// ---------------------------------------------------------------------------

/// One entry of a role map as a value.
pub open spec fn role_views(m: Seq<(&str, &str, PinRole)>) -> Seq<
    (Seq<char>, Seq<char>, PinRole),
> {
    Seq::new(m.len(), |i: int| (m[i].0@, m[i].1@, m[i].2))
}

/// The pins with every pad of that number renamed and given the role.
pub open spec fn renamed(pins: Seq<PinV>, e: (Seq<char>, Seq<char>, PinRole)) -> Seq<PinV> {
    Seq::new(
        pins.len(),
        |i: int|
            if pins[i].number == e.0 {
                PinV { name: e.1, role: e.2, ..pins[i] }
            } else {
                pins[i]
            },
    )
}

/// The pins after the entries from `i` on; an entry without a pad is an error.
pub open spec fn mapped_from(
    name: Seq<char>,
    pins: Seq<PinV>,
    m: Seq<(Seq<char>, Seq<char>, PinRole)>,
    i: int,
) -> Result<Seq<PinV>, Seq<char>>
    decreases m.len() - i,
{
    if i < 0 || i >= m.len() {
        Ok(pins)
    } else if !footprint::numbered(pins, m[i].0) {
        Err("apply_role_map: part `"@ + name + "` has no pad `"@ + m[i].0 + "`"@)
    } else {
        mapped_from(name, renamed(pins, m[i]), m, i + 1)
    }
}

/// Give the pads of a footprint names and roles by number, in place of a symbol. Each
/// entry renames and roles the pads of its number; a number without a pad is an error.
pub fn apply_role_map(part: PartDef, map: &[(&str, &str, PinRole)]) -> (r: Result<
    PartDef,
    String,
>)
    ensures
        match (r, mapped_from(part@.name, part@.pins, role_views(map@), 0)) {
            (Ok(p), Ok(pins)) => p@ == (PartV { pins, ..part@ }),
            (Err(e), Err(m)) => e@ == m,
            _ => false,
        },
{
    let ghost was = part@;
    let ghost m = role_views(map@);
    let mut out = part;
    let mut i: usize = 0;
    assert(was == (PartV { pins: was.pins, ..was }));
    while i < map.len()
        invariant
            i <= map.len(),
            m == role_views(map@),
            was == part@,
            out@ == (PartV { pins: out@.pins, ..was }),
            mapped_from(was.name, was.pins, m, 0) == mapped_from(
                was.name,
                out@.pins,
                m,
                i as int,
            ),
        decreases map.len() - i,
    {
        let (num, name, role) = map[i];
        assert(m[i as int] == (num@, name@, role));
        let ghost before = out@.pins;
        let mut hit = false;
        let mut j: usize = 0;
        let mut pins: Vec<PinDef> = Vec::new();
        while j < out.pins.len()
            invariant
                j <= out.pins.len(),
                before == out@.pins,
                before.len() == out.pins.len(),
                m[i as int] == (num@, name@, role),
                pins.len() == j,
                forall|k: int|
                    0 <= k < j ==> (#[trigger] pins@[k])@ == renamed(before, m[i as int])[k],
                hit == exists|k: int| 0 <= k < j && (#[trigger] before[k]).number == num@,
            decreases out.pins.len() - j,
        {
            let p = &out.pins[j];
            assert(before[j as int] == p@);
            if str_eq(p.number.as_str(), num) {
                hit = true;
                pins.push(
                    PinDef {
                        name: name.to_owned(),
                        number: p.number.clone(),
                        role,
                        offset: p.offset,
                        pad: clone_pad(&p.pad),
                    },
                );
            } else {
                pins.push(
                    PinDef {
                        name: p.name.clone(),
                        number: p.number.clone(),
                        role: p.role,
                        offset: p.offset,
                        pad: clone_pad(&p.pad),
                    },
                );
            }
            j += 1;
        }
        if !hit {
            let head = cat3("apply_role_map: part `", out.name.as_str(), "` has no pad `");
            return Err(cat3(head.as_str(), num, "`"));
        }
        assert(part::pin_views(pins@) =~= renamed(before, m[i as int]));
        out.pins = pins;
        i += 1;
    }
    Ok(out)
}

} // verus!
