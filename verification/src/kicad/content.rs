//! What an import takes from a file: every pad, pin, graphic and text.

use super::footprint;
use super::number::Num;
use super::primitive;
use super::sexp;
use super::sexp::SexpV;
use super::symbol;
use super::symbol::SymbolPinV;
use crate::geom::shape::ShapeV;
use crate::part::{GraphicV, PartV, PinRole, PinV, TextV};
use vstd::prelude::*;

verus! {

// ---------------------------------------------------------------------------
// Symbols.
// ---------------------------------------------------------------------------

/// A pin has the role that its type spells: an output is an output, a power output a power
/// output, and so on for inputs and for both ways. Every other type, such as one that drives
/// only at times, is passive.
pub proof fn types_have_the_role_they_spell(s: Seq<char>)
    requires
        symbol::type_of(s) is Some,
    ensures
        ({
            let r = symbol::role_of_type(symbol::type_of(s)->0);
            &&& r == PinRole::Output <==> s == "output"@
            &&& r == PinRole::PowerOut <==> s == "power_out"@
            &&& r == PinRole::PowerIn <==> s == "power_in"@
            &&& r == PinRole::Input <==> s == "input"@
            &&& r == PinRole::Bidir <==> s == "bidirectional"@
        }),
{
    reveal_strlit("input");
    reveal_strlit("output");
    reveal_strlit("bidirectional");
    reveal_strlit("tri_state");
    reveal_strlit("passive");
    reveal_strlit("free");
    reveal_strlit("unspecified");
    reveal_strlit("power_in");
    reveal_strlit("power_out");
    reveal_strlit("open_collector");
    reveal_strlit("open_emitter");
    reveal_strlit("no_connect");
    assert("power_in"@.len() == 8 && "power_out"@.len() == 9 && "input"@.len() == 5
        && "output"@.len() == 6 && "bidirectional"@.len() == 13 && "tri_state"@.len() == 9
        && "passive"@.len() == 7 && "free"@.len() == 4 && "unspecified"@.len() == 11);
    assert("tri_state"@[0] != "power_out"@[0]);
}

/// A pad takes the name and the role of the symbol's pin of its number; a pad without one
/// keeps its name and is passive.
pub proof fn pads_take_name_and_role_from_the_symbol(
    sym: Seq<SymbolPinV>,
    fp: PartV,
    i: int,
    j: int,
)
    requires
        symbol::well_numbered(sym),
        0 <= i < fp.pins.len(),
    ensures
        0 <= j < sym.len() && sym[j].number == fp.pins[i].number ==> symbol::joined(
            sym,
            fp,
        ).pins[i].name == sym[j].name && symbol::joined(sym, fp).pins[i].role
            == symbol::role_of_type(sym[j].etype),
        (forall|k: int| 0 <= k < sym.len() ==> (#[trigger] sym[k]).number != fp.pins[i].number)
            ==> symbol::joined(sym, fp).pins[i].name == fp.pins[i].name && symbol::joined(
            sym,
            fp,
        ).pins[i].role == PinRole::Passive,
{
    let n = fp.pins[i].number;
    symbol::numbered_is_found(sym, n);
    if 0 <= j < sym.len() && sym[j].number == n {
        last_of_a_number(sym, j);
    }
    if symbol::has_pin(sym, n) {
        let k = choose|k: int| 0 <= k < sym.len() && (#[trigger] sym[k]).number == n;
        assert(sym[k].number == n);
    }
}

proof fn last_of_a_number(sym: Seq<SymbolPinV>, j: int)
    requires
        0 <= j < sym.len(),
        forall|k: int, l: int|
            0 <= k < l < sym.len() ==> (#[trigger] sym[k]).number != (#[trigger] sym[l]).number,
    ensures
        symbol::pin_numbered(sym, sym[j].number) == Some(sym[j]),
    decreases sym.len(),
{
    if j < sym.len() - 1 {
        assert(sym[j].number != sym[sym.len() - 1].number);
        assert(sym.drop_last()[j] == sym[j]);
        last_of_a_number(sym.drop_last(), j);
    }
}

proof fn pins_are_kept(node: Seq<SexpV>, i: int, done: Seq<SymbolPinV>, k: int)
    requires
        0 <= k < done.len(),
    ensures
        k < symbol::pins_from(node, i, done).len(),
        symbol::pins_from(node, i, done)[k] == done[k],
    decreases node, node.len() - i,
{
    if 0 <= i < node.len() {
        let more = match node[i] {
            SexpV::Atom(_) => done,
            SexpV::List(l) => if sexp::atom_at(l, 0) == Some("pin"@) {
                symbol::with_pin(l, done)
            } else if sexp::atom_at(l, 0) == Some("symbol"@) {
                symbol::pins_from(l, 0, done)
            } else {
                done
            },
        };
        match node[i] {
            SexpV::Atom(_) => {},
            SexpV::List(l) => {
                assert(decreases_to!(node => node[i]));
                assert(decreases_to!(node[i] => node[i]->List_0));
                if sexp::atom_at(l, 0) == Some("symbol"@) && sexp::atom_at(l, 0) != Some("pin"@) {
                    pins_are_kept(l, 0, done, k);
                }
            },
        }
        pins_are_kept(node, i + 1, more, k);
    }
}

/// The number of a pin, as its `(number n)` says.
pub open spec fn number_of(pin: Seq<SexpV>) -> Seq<char> {
    match sexp::child_atom(pin, "number"@, 1) {
        Some(n) => n,
        None => Seq::empty(),
    }
}

/// The list is a pin of a known type, with a number.
pub open spec fn is_pin(pin: Seq<SexpV>) -> bool {
    &&& sexp::atom_at(pin, 0) == Some("pin"@)
    &&& number_of(pin).len() > 0
    &&& sexp::atom_at(pin, 1) matches Some(t) && symbol::type_of(t) is Some
}

proof fn pin_is_found(node: Seq<SexpV>, i: int, at: int, done: Seq<SymbolPinV>, pin: Seq<SexpV>)
    requires
        0 <= i <= at < node.len(),
        node[at] == SexpV::List(pin),
        is_pin(pin),
    ensures
        symbol::has_pin(symbol::pins_from(node, i, done), number_of(pin)),
    decreases node.len() - i,
{
    let more = match node[i] {
        SexpV::Atom(_) => done,
        SexpV::List(l) => if sexp::atom_at(l, 0) == Some("pin"@) {
            symbol::with_pin(l, done)
        } else if sexp::atom_at(l, 0) == Some("symbol"@) {
            symbol::pins_from(l, 0, done)
        } else {
            done
        },
    };
    if i < at {
        pin_is_found(node, i + 1, at, more, pin);
    } else {
        let n = number_of(pin);
        if !symbol::has_pin(done, n) {
            assert(more[done.len() as int].number == n);
        }
        assert(symbol::has_pin(more, n));
        let k = choose|k: int| 0 <= k < more.len() && (#[trigger] more[k]).number == n;
        pins_are_kept(node, i + 1, more, k);
        assert(symbol::pins_from(node, i, done)[k].number == n);
    }
}

proof fn unit_pin_is_found(
    node: Seq<SexpV>,
    i: int,
    at: int,
    done: Seq<SymbolPinV>,
    unit: Seq<SexpV>,
    j: int,
    pin: Seq<SexpV>,
)
    requires
        0 <= i <= at < node.len(),
        node[at] == SexpV::List(unit),
        sexp::atom_at(unit, 0) == Some("symbol"@),
        sexp::atom_at(unit, 0) != Some("pin"@),
        0 <= j < unit.len(),
        unit[j] == SexpV::List(pin),
        is_pin(pin),
    ensures
        symbol::has_pin(symbol::pins_from(node, i, done), number_of(pin)),
    decreases node.len() - i,
{
    let more = match node[i] {
        SexpV::Atom(_) => done,
        SexpV::List(l) => if sexp::atom_at(l, 0) == Some("pin"@) {
            symbol::with_pin(l, done)
        } else if sexp::atom_at(l, 0) == Some("symbol"@) {
            symbol::pins_from(l, 0, done)
        } else {
            done
        },
    };
    if i < at {
        unit_pin_is_found(node, i + 1, at, more, unit, j, pin);
    } else {
        let n = number_of(pin);
        pin_is_found(unit, 0, j, done, pin);
        let k = choose|k: int| 0 <= k < more.len() && (#[trigger] more[k]).number == n;
        pins_are_kept(node, i + 1, more, k);
        assert(symbol::pins_from(node, i, done)[k].number == n);
    }
}

/// Every pin of a symbol with a known type and a number is imported, whether it stands in the
/// symbol itself or in one of its units.
pub proof fn every_symbol_pin_is_imported(
    node: Seq<SexpV>,
    at: int,
    unit: Seq<SexpV>,
    j: int,
    pin: Seq<SexpV>,
)
    requires
        symbol::symbol_of(node) is Ok,
        0 <= at < node.len(),
        is_pin(pin),
        node[at] == SexpV::List(pin) || (node[at] == SexpV::List(unit) && sexp::atom_at(unit, 0)
            == Some("symbol"@) && 0 <= j < unit.len() && unit[j] == SexpV::List(pin)),
    ensures
        symbol::has_pin(symbol::symbol_of(node)->Ok_0.pins, number_of(pin)),
{
    reveal_strlit("pin");
    reveal_strlit("symbol");
    assert("pin"@.len() != "symbol"@.len());
    if node[at] == SexpV::List(pin) {
        pin_is_found(node, 0, at, Seq::empty(), pin);
    } else {
        unit_pin_is_found(node, 0, at, Seq::empty(), unit, j, pin);
    }
}

// ---------------------------------------------------------------------------
// Footprints.
// ---------------------------------------------------------------------------

proof fn pads_are_kept(
    items: Seq<SexpV>,
    i: int,
    done: Seq<PinV>,
    rs: Seq<(Seq<char>, Num)>,
    k: int,
)
    requires
        0 <= i <= items.len(),
        0 <= k < done.len(),
        footprint::pins_from(items, i, done, rs) is Ok,
    ensures
        k < footprint::pins_from(items, i, done, rs)->Ok_0.len(),
        footprint::pins_from(items, i, done, rs)->Ok_0[k] == done[k],
    decreases items.len() - i,
{
    if i < items.len() {
        match sexp::headed(items[i], "pad"@) {
            None => pads_are_kept(items, i + 1, done, rs, k),
            Some(pad) => {
                let name = footprint::or_empty(sexp::atom_at(pad, 1));
                if name.len() == 0 || footprint::numbered(done, name) {
                    pads_are_kept(items, i + 1, done, rs, k);
                } else if let Ok(pin) = footprint::pad_pin(pad, name, rs) {
                    pads_are_kept(items, i + 1, done.push(pin), rs, k);
                }
            },
        }
    }
}

/// The item is a pad of that name.
pub open spec fn is_pad(item: SexpV, name: Seq<char>) -> bool {
    sexp::headed(item, "pad"@) matches Some(pad) && sexp::atom_at(pad, 1) == Some(name)
}

proof fn pad_is_found(
    items: Seq<SexpV>,
    i: int,
    at: int,
    done: Seq<PinV>,
    rs: Seq<(Seq<char>, Num)>,
    name: Seq<char>,
)
    requires
        0 <= i <= at < items.len(),
        is_pad(items[at], name),
        name.len() > 0,
        forall|k: int| i <= k < at ==> !is_pad(#[trigger] items[k], name),
        !footprint::numbered(done, name),
        footprint::pins_from(items, i, done, rs) is Ok,
    ensures
        ({
            let pad = sexp::headed(items[at], "pad"@)->0;
            &&& footprint::pad_pin(pad, name, rs) is Ok
            &&& footprint::pins_from(items, i, done, rs)->Ok_0.contains(
                footprint::pad_pin(pad, name, rs)->Ok_0,
            )
        }),
    decreases items.len() - i,
{
    if i == at {
        let pad = sexp::headed(items[at], "pad"@)->0;
        let pin = footprint::pad_pin(pad, name, rs)->Ok_0;
        let more = done.push(pin);
        pads_are_kept(items, i + 1, more, rs, done.len() as int);
        let all = footprint::pins_from(items, i, done, rs)->Ok_0;
        assert(all[done.len() as int] == pin);
    } else {
        assert(!is_pad(items[i], name));
        match sexp::headed(items[i], "pad"@) {
            None => pad_is_found(items, i + 1, at, done, rs, name),
            Some(pad) => {
                let other = footprint::or_empty(sexp::atom_at(pad, 1));
                if other.len() == 0 || footprint::numbered(done, other) {
                    pad_is_found(items, i + 1, at, done, rs, name);
                } else if let Ok(pin) = footprint::pad_pin(pad, other, rs) {
                    let more = done.push(pin);
                    assert(other != name);
                    assert(!footprint::numbered(more, name)) by {
                        if footprint::numbered(more, name) {
                            let k = choose|k: int|
                                0 <= k < more.len() && (#[trigger] more[k]).number == name;
                            if k < done.len() {
                                assert(done[k].number == name);
                            }
                        }
                    }
                    pad_is_found(items, i + 1, at, more, rs, name);
                }
            },
        }
    }
}

/// Every pad of a footprint that has a name becomes a pin, as the pad describes it; of several
/// pads of one name the first does.
pub proof fn every_named_pad_is_a_pin(
    items: Seq<SexpV>,
    at: int,
    rs: Seq<(Seq<char>, Num)>,
    name: Seq<char>,
)
    requires
        footprint::footprint_items(items, rs) is Ok,
        0 <= at < items.len(),
        is_pad(items[at], name),
        name.len() > 0,
        forall|k: int| 0 <= k < at ==> !is_pad(#[trigger] items[k], name),
    ensures
        ({
            let pad = sexp::headed(items[at], "pad"@)->0;
            &&& footprint::pad_pin(pad, name, rs) is Ok
            &&& footprint::footprint_items(items, rs)->Ok_0.pins.contains(
                footprint::pad_pin(pad, name, rs)->Ok_0,
            )
        }),
{
    pad_is_found(items, 0, at, Seq::empty(), rs, name);
}

/// The layer is one of silk screen or of fabrication notes.
pub open spec fn is_ink(l: Seq<char>) -> bool {
    l == "F.SilkS"@ || l == "B.SilkS"@ || l == "F.Fab"@ || l == "B.Fab"@
}

/// The layer is one of courtyards.
pub open spec fn is_yard(l: Seq<char>) -> bool {
    l == "F.CrtYd"@ || l == "B.CrtYd"@
}

/// The item draws that shape on that layer.
pub open spec fn draws(item: SexpV, rs: Seq<(Seq<char>, Num)>, s: ShapeV, l: Seq<char>) -> bool {
    primitive::fp_graphic(item, rs) == Ok::<Option<(ShapeV, Seq<char>)>, Seq<char>>(Some((s, l)))
}

/// The item draws a polygon on a courtyard layer.
pub open spec fn draws_a_yard(item: SexpV, rs: Seq<(Seq<char>, Num)>) -> bool {
    primitive::fp_graphic(item, rs) matches Ok(Some((s, l))) && is_yard(l) && s is Polygon
}

proof fn inks_are_not_yards(l: Seq<char>)
    ensures
        !(is_ink(l) && is_yard(l)),
{
    reveal_strlit("F.SilkS");
    reveal_strlit("B.SilkS");
    reveal_strlit("F.Fab");
    reveal_strlit("B.Fab");
    reveal_strlit("F.CrtYd");
    reveal_strlit("B.CrtYd");
    assert("F.CrtYd"@[2] == 'C' && "B.CrtYd"@[2] == 'C' && "F.SilkS"@[2] == 'S' && "B.SilkS"@[2]
        == 'S' && "F.Fab"@[2] == 'F' && "B.Fab"@[2] == 'F');
}

/// The graphics and the courtyard after the item at `i`.
spec fn after(
    items: Seq<SexpV>,
    i: int,
    done: Seq<GraphicV>,
    court: Option<ShapeV>,
    rs: Seq<(Seq<char>, Num)>,
) -> (Seq<GraphicV>, Option<ShapeV>) {
    match primitive::fp_graphic(items[i], rs) {
        Ok(Some((s, l))) => if footprint::is_drawn(l) {
            (done.push(GraphicV { shape: s, layer: l }), court)
        } else if footprint::is_courtyard(l) && s is Polygon {
            (done, Some(s))
        } else {
            (done, court)
        },
        _ => (done, court),
    }
}

proof fn graphics_are_kept(
    items: Seq<SexpV>,
    i: int,
    done: Seq<GraphicV>,
    court: Option<ShapeV>,
    rs: Seq<(Seq<char>, Num)>,
    k: int,
)
    requires
        0 <= i <= items.len(),
        0 <= k < done.len(),
        footprint::graphics_from(items, i, done, court, rs) is Ok,
    ensures
        ({
            let (all, yard) = footprint::graphics_from(items, i, done, court, rs)->Ok_0;
            k < all.len() && all[k] == done[k]
        }),
    decreases items.len() - i,
{
    if i < items.len() {
        let (more, yard) = after(items, i, done, court, rs);
        graphics_are_kept(items, i + 1, more, yard, rs, k);
    }
}

proof fn graphic_is_found(
    items: Seq<SexpV>,
    i: int,
    at: int,
    done: Seq<GraphicV>,
    court: Option<ShapeV>,
    rs: Seq<(Seq<char>, Num)>,
    s: ShapeV,
    l: Seq<char>,
)
    requires
        0 <= i <= at < items.len(),
        draws(items[at], rs, s, l),
        is_ink(l),
        footprint::graphics_from(items, i, done, court, rs) is Ok,
    ensures
        ({
            let (all, yard) = footprint::graphics_from(items, i, done, court, rs)->Ok_0;
            all.contains(GraphicV { shape: s, layer: l })
        }),
    decreases items.len() - i,
{
    let (more, yard) = after(items, i, done, court, rs);
    if i < at {
        graphic_is_found(items, i + 1, at, more, yard, rs, s, l);
    } else {
        graphics_are_kept(items, i + 1, more, yard, rs, done.len() as int);
        let (all, last) = footprint::graphics_from(items, i, done, court, rs)->Ok_0;
        assert(all[done.len() as int] == GraphicV { shape: s, layer: l });
    }
}

proof fn yard_stays(
    items: Seq<SexpV>,
    i: int,
    done: Seq<GraphicV>,
    court: Option<ShapeV>,
    rs: Seq<(Seq<char>, Num)>,
)
    requires
        0 <= i <= items.len(),
        forall|k: int| i <= k < items.len() ==> !draws_a_yard(#[trigger] items[k], rs),
        footprint::graphics_from(items, i, done, court, rs) is Ok,
    ensures
        ({
            let (all, yard) = footprint::graphics_from(items, i, done, court, rs)->Ok_0;
            yard == court
        }),
    decreases items.len() - i,
{
    if i < items.len() {
        assert(!draws_a_yard(items[i], rs));
        let (more, yard) = after(items, i, done, court, rs);
        yard_stays(items, i + 1, more, yard, rs);
    }
}

proof fn last_yard_is_found(
    items: Seq<SexpV>,
    i: int,
    at: int,
    done: Seq<GraphicV>,
    court: Option<ShapeV>,
    rs: Seq<(Seq<char>, Num)>,
    s: ShapeV,
    l: Seq<char>,
)
    requires
        0 <= i <= at < items.len(),
        draws(items[at], rs, s, l),
        is_yard(l),
        s is Polygon,
        forall|k: int| at < k < items.len() ==> !draws_a_yard(#[trigger] items[k], rs),
        footprint::graphics_from(items, i, done, court, rs) is Ok,
    ensures
        ({
            let (all, yard) = footprint::graphics_from(items, i, done, court, rs)->Ok_0;
            yard == Some(s)
        }),
    decreases items.len() - i,
{
    let (more, yard) = after(items, i, done, court, rs);
    if i < at {
        last_yard_is_found(items, i + 1, at, more, yard, rs, s, l);
    } else {
        inks_are_not_yards(l);
        yard_stays(items, i + 1, more, yard, rs);
    }
}

/// Every graphic on a silk screen or fabrication layer is kept with its layer, and the last
/// polygon on a courtyard layer is the courtyard; without one there is none.
pub proof fn every_drawn_graphic_is_kept(
    items: Seq<SexpV>,
    rs: Seq<(Seq<char>, Num)>,
    k: int,
    s: ShapeV,
    l: Seq<char>,
)
    requires
        footprint::footprint_items(items, rs) is Ok,
    ensures
        ({
            let p = footprint::footprint_items(items, rs)->Ok_0;
            &&& 0 <= k < items.len() && draws(items[k], rs, s, l) && is_ink(l)
                ==> p.graphics.contains(GraphicV { shape: s, layer: l })
            &&& 0 <= k < items.len() && draws(items[k], rs, s, l) && is_yard(l) && s is Polygon && (
            forall|j: int| k < j < items.len() ==> !draws_a_yard(#[trigger] items[j], rs))
                ==> p.courtyard == Some(s)
            &&& (forall|j: int| 0 <= j < items.len() ==> !draws_a_yard(#[trigger] items[j], rs))
                ==> p.courtyard is None
        }),
{
    if 0 <= k < items.len() && draws(items[k], rs, s, l) {
        if is_ink(l) {
            graphic_is_found(items, 0, k, Seq::empty(), None, rs, s, l);
        }
        if is_yard(l) && s is Polygon && (forall|j: int|
            k < j < items.len() ==> !draws_a_yard(#[trigger] items[j], rs)) {
            last_yard_is_found(items, 0, k, Seq::empty(), None, rs, s, l);
        }
    }
    if forall|j: int| 0 <= j < items.len() ==> !draws_a_yard(#[trigger] items[j], rs) {
        yard_stays(items, 0, Seq::empty(), None, rs);
    }
}

proof fn texts_are_kept(
    items: Seq<SexpV>,
    i: int,
    done: Seq<TextV>,
    rs: Seq<(Seq<char>, Num)>,
    k: int,
)
    requires
        0 <= i <= items.len(),
        0 <= k < done.len(),
        footprint::texts_from(items, i, done, rs) is Ok,
    ensures
        k < footprint::texts_from(items, i, done, rs)->Ok_0.len(),
        footprint::texts_from(items, i, done, rs)->Ok_0[k] == done[k],
    decreases items.len() - i,
{
    if i < items.len() {
        match footprint::fp_text(items[i], rs) {
            Err(e) => {},
            Ok(None) => texts_are_kept(items, i + 1, done, rs, k),
            Ok(Some(t)) => texts_are_kept(items, i + 1, done.push(t), rs, k),
        }
    }
}

proof fn text_is_found(
    items: Seq<SexpV>,
    i: int,
    at: int,
    done: Seq<TextV>,
    rs: Seq<(Seq<char>, Num)>,
    t: TextV,
)
    requires
        0 <= i <= at < items.len(),
        footprint::fp_text(items[at], rs) == Ok::<Option<TextV>, Seq<char>>(Some(t)),
        footprint::texts_from(items, i, done, rs) is Ok,
    ensures
        footprint::texts_from(items, i, done, rs)->Ok_0.contains(t),
    decreases items.len() - i,
{
    if i == at {
        texts_are_kept(items, i + 1, done.push(t), rs, done.len() as int);
        assert(footprint::texts_from(items, i, done, rs)->Ok_0[done.len() as int] == t);
    } else {
        match footprint::fp_text(items[i], rs) {
            Err(e) => {},
            Ok(None) => text_is_found(items, i + 1, at, done, rs, t),
            Ok(Some(other)) => text_is_found(items, i + 1, at, done.push(other), rs, t),
        }
    }
}

/// Every text of a footprint is kept.
pub proof fn every_text_is_kept(items: Seq<SexpV>, rs: Seq<(Seq<char>, Num)>, k: int, t: TextV)
    requires
        footprint::footprint_items(items, rs) is Ok,
        0 <= k < items.len(),
        footprint::fp_text(items[k], rs) == Ok::<Option<TextV>, Seq<char>>(Some(t)),
    ensures
        footprint::footprint_items(items, rs)->Ok_0.texts.contains(t),
{
    text_is_found(items, 0, k, Seq::empty(), rs, t);
}

// ---------------------------------------------------------------------------
// Choosing and naming.
// ---------------------------------------------------------------------------

/// The item is a symbol of that name.
pub open spec fn is_symbol(item: SexpV, name: Seq<char>) -> bool {
    sexp::headed(item, "symbol"@) matches Some(n) && sexp::atom_at(n, 1) == Some(name)
}

/// Of a library the symbol that is asked for by name is taken, the first of that name, and
/// none where there is none.
pub proof fn a_symbol_is_found_by_its_name(
    items: Seq<SexpV>,
    i: int,
    at: int,
    name: Seq<char>,
)
    requires
        0 <= i <= at <= items.len(),
        forall|k: int| i <= k < at ==> !is_symbol(#[trigger] items[k], name),
        at < items.len() ==> is_symbol(items[at], name),
    ensures
        symbol::symbol_node_from(items, i, Some(name)) == if at < items.len() {
            sexp::headed(items[at], "symbol"@)
        } else {
            None
        },
    decreases items.len() - i,
{
    if i < at {
        assert(!is_symbol(items[i], name));
        a_symbol_is_found_by_its_name(items, i + 1, at, name);
    }
}

/// The pad is another pin's in all but its name and its role.
pub open spec fn same_pad(a: PinV, b: PinV) -> bool {
    a.number == b.number && a.offset == b.offset && a.pad == b.pad
}

/// A role map names the pads: a pad has the name and the role of the last entry for its
/// number, and one without an entry keeps what it had; everything else of a pad stays.
pub proof fn pads_have_the_role_they_are_mapped_to(
    name: Seq<char>,
    pins: Seq<PinV>,
    m: Seq<(Seq<char>, Seq<char>, PinRole)>,
    i: int,
    k: int,
    j: int,
)
    requires
        0 <= i <= m.len(),
        symbol::mapped_from(name, pins, m, i) is Ok,
        0 <= k < pins.len(),
    ensures
        ({
            let out = symbol::mapped_from(name, pins, m, i)->Ok_0;
            &&& out.len() == pins.len()
            &&& same_pad(out[k], pins[k])
            &&& (forall|l: int| i <= l < m.len() ==> (#[trigger] m[l]).0 != pins[k].number)
                ==> out[k] == pins[k]
            &&& i <= j < m.len() && m[j].0 == pins[k].number && (forall|l: int|
                j < l < m.len() ==> (#[trigger] m[l]).0 != pins[k].number) ==> out[k].name
                == m[j].1 && out[k].role == m[j].2
        }),
    decreases m.len() - i,
{
    if i < m.len() {
        let next = symbol::renamed(pins, m[i]);
        assert(next[k].number == pins[k].number);
        pads_have_the_role_they_are_mapped_to(name, next, m, i + 1, k, j);
        if forall|l: int| i <= l < m.len() ==> (#[trigger] m[l]).0 != pins[k].number {
            assert(m[i].0 != pins[k].number);
            assert(next[k] == pins[k]);
        }
    }
}

/// A role map is taken exactly where every entry has a pad.
pub proof fn a_role_map_needs_its_pads(
    name: Seq<char>,
    pins: Seq<PinV>,
    m: Seq<(Seq<char>, Seq<char>, PinRole)>,
    i: int,
)
    requires
        0 <= i <= m.len(),
    ensures
        symbol::mapped_from(name, pins, m, i) is Ok <==> forall|j: int|
            i <= j < m.len() ==> footprint::numbered(pins, (#[trigger] m[j]).0),
    decreases m.len() - i,
{
    if i < m.len() {
        let next = symbol::renamed(pins, m[i]);
        a_role_map_needs_its_pads(name, next, m, i + 1);
        assert forall|n: Seq<char>| #[trigger]
            footprint::numbered(next, n) <==> footprint::numbered(pins, n) by {
            if footprint::numbered(next, n) {
                let k = choose|k: int| 0 <= k < next.len() && (#[trigger] next[k]).number == n;
                assert(pins[k].number == n);
            }
            if footprint::numbered(pins, n) {
                let k = choose|k: int| 0 <= k < pins.len() && (#[trigger] pins[k]).number == n;
                assert(next[k].number == n);
            }
        }
        if footprint::numbered(pins, m[i].0) && (forall|j: int|
            i + 1 <= j < m.len() ==> footprint::numbered(next, (#[trigger] m[j]).0)) {
            assert forall|j: int| i <= j < m.len() implies footprint::numbered(
                pins,
                (#[trigger] m[j]).0,
            ) by {
                if j > i {
                    assert(footprint::numbered(next, m[j].0));
                }
            }
        }
    }
}

} // verus!
