//! What a placed component draws and how much room it takes.

use super::geometry;
use super::geometry::{placed, InkV};
use super::placement::{is_moved, placing_moves_every_point, upside_down};
use super::{CopperV, GraphicV, PartV, PinV, TextKindV, TextV};
use crate::coord;
use crate::coord::{Nm, Point};
use crate::doc::ComponentV;
use crate::geom::feature::FeatureV;
use crate::geom::shape;
use crate::geom::shape::ShapeV;
use crate::geom::stackup;
use crate::geom::stackup::SlabV;
use vstd::prelude::*;

verus! {

// ---------------------------------------------------------------------------
// Sides.
// ---------------------------------------------------------------------------

/// The other side of a front layer is the back layer of the same kind, and the other way
/// round; a layer of neither side has no other side.
pub proof fn sides_are_front_and_back(kind: Seq<char>, other: Seq<char>)
    ensures
        geometry::other_side(seq!['F', '.'] + kind) == seq!['B', '.'] + kind,
        geometry::other_side(seq!['B', '.'] + kind) == seq!['F', '.'] + kind,
        !(other.len() >= 2 && (other[0] == 'F' || other[0] == 'B') && other[1] == '.')
            ==> geometry::other_side(other) == other,
{
    reveal_strlit("F.");
    reveal_strlit("B.");
    let (f, b) = (seq!['F', '.'] + kind, seq!['B', '.'] + kind);
    assert("F."@ =~= seq!['F', '.'] && "B."@ =~= seq!['B', '.']);
    assert(f.take(2) =~= seq!['F', '.'] && b.take(2) =~= seq!['B', '.']);
    assert(f.skip(2) =~= kind && b.skip(2) =~= kind);
    assert(b.take(2)[0] != seq!['F', '.'][0]);
    if other.len() >= 2 {
        assert(other.take(2)[0] == other[0] && other.take(2)[1] == other[1]);
    }
}

/// The layer of the board that a layer of a component is on.
pub open spec fn board_layer(c: ComponentV, layer: Seq<char>) -> Seq<char> {
    if upside_down(c) {
        geometry::other_side(layer)
    } else {
        layer
    }
}

/// `s` is the first slab of that name.
pub open spec fn is_slab(su: Seq<SlabV>, name: Seq<char>, k: int) -> bool {
    0 <= k < su.len() && su[k].name == name && forall|i: int|
        0 <= i < k ==> (#[trigger] su[i]).name != name
}

proof fn slab_of_a_layer(c: ComponentV, layer: Seq<char>, su: Seq<SlabV>)
    ensures
        forall|k: int|
            #[trigger] is_slab(su, board_layer(c, layer), k) ==> geometry::layer_slab(c, layer, su)
                == Some(su[k]),
        geometry::layer_slab(c, layer, su) matches Some(s) ==> exists|k: int| #[trigger]
            is_slab(su, board_layer(c, layer), k) && su[k] == s,
{
    let name = board_layer(c, layer);
    stackup::slab_index_is_first(su, name);
    let i = stackup::slab_index(su, name);
    assert forall|k: int| #[trigger] is_slab(su, name, k) implies i == k by {
        if i < k {
            assert(su[i].name != name);
        }
    }
    if i < su.len() {
        assert(is_slab(su, name, i));
    }
}

// ---------------------------------------------------------------------------
// Graphics.
// ---------------------------------------------------------------------------

proof fn graphic_is_listed(
    gs: Seq<GraphicV>,
    n: nat,
    c: ComponentV,
    su: Seq<SlabV>,
    i: int,
    k: int,
)
    requires
        0 <= i < n <= gs.len(),
        is_slab(su, board_layer(c, gs[i].layer), k),
    ensures
        exists|f: FeatureV| #[trigger]
            geometry::graphics_prefix(gs, n, c, su).contains(f) && f.role == su[k].role && f.z
                == su[k].z && f.shape == geometry::placed_shape(c, gs[i].shape),
    decreases n,
{
    let all = geometry::graphics_prefix(gs, n, c, su);
    let done = geometry::graphics_prefix(gs, (n - 1) as nat, c, su);
    slab_of_a_layer(c, gs[i].layer, su);
    if i == n - 1 {
        assert(all.contains(all[all.len() - 1]));
    } else {
        graphic_is_listed(gs, (n - 1) as nat, c, su, i, k);
        let f = choose|f: FeatureV| #[trigger]
            done.contains(f) && f.role == su[k].role && f.z == su[k].z && f.shape
                == geometry::placed_shape(c, gs[i].shape);
        let j = choose|j: int| 0 <= j < done.len() && done[j] == f;
        assert(all[j] == f);
        assert(all.contains(f));
    }
}

/// Every graphic of a part whose slab the board has is drawn on it, moved with the component,
/// as what that slab is. On a component that is turned over it is the slab of the other side.
pub proof fn graphics_are_drawn(gs: Seq<GraphicV>, c: ComponentV, su: Seq<SlabV>, i: int, k: int)
    requires
        0 <= i < gs.len(),
        !(gs[i].shape is Area),
        is_slab(su, board_layer(c, gs[i].layer), k),
    ensures
        exists|f: FeatureV| #[trigger]
            geometry::graphics_prefix(gs, gs.len(), c, su).contains(f) && f.role == su[k].role && f.z
                == su[k].z && is_moved(f.shape, gs[i].shape, c),
{
    graphic_is_listed(gs, gs.len(), c, su, i, k);
    placing_moves_every_point(c, gs[i].shape);
}

// ---------------------------------------------------------------------------
// Texts.
// ---------------------------------------------------------------------------

proof fn text_is_listed(
    ts: Seq<TextV>,
    n: nat,
    c: ComponentV,
    su: Seq<SlabV>,
    refdes: Seq<char>,
    label: Seq<char>,
    font: Seq<(Seq<char>, Nm, InkV)>,
    i: int,
    f: FeatureV,
)
    requires
        0 <= i < n <= ts.len(),
        geometry::one_text(ts[i], c, su, refdes, label, font).contains(f),
    ensures
        geometry::texts_prefix(ts, n, c, su, refdes, label, font).contains(f),
    decreases n,
{
    let all = geometry::texts_prefix(ts, n, c, su, refdes, label, font);
    let done = geometry::texts_prefix(ts, (n - 1) as nat, c, su, refdes, label, font);
    let own = geometry::one_text(ts[n - 1], c, su, refdes, label, font);
    if i < n - 1 {
        text_is_listed(ts, (n - 1) as nat, c, su, refdes, label, font, i, f);
        let j = choose|j: int| 0 <= j < done.len() && done[j] == f;
        assert(all[j] == f);
    } else {
        let j = choose|j: int| 0 <= j < own.len() && own[j] == f;
        assert(all[done.len() + j] == f);
    }
}

/// `to` is where the point `from` of a text is drawn: turned about the anchor, moved to the
/// anchor, and placed with the component.
pub open spec fn is_written_at(to: Point, from: Point, t: TextV, c: ComponentV) -> bool {
    exists|q: Point|
        q.x == coord::turned(t.orient, from).x + t.at.x && q.y == coord::turned(t.orient, from).y
            + t.at.y && to == #[trigger] placed(c, q)
}

/// A stroke of a text is drawn point by point.
pub open spec fn is_written(path: Seq<Point>, stroke: Seq<Point>, t: TextV, c: ComponentV) -> bool {
    path.len() == stroke.len() && forall|j: int|
        0 <= j < stroke.len() ==> is_written_at(#[trigger] path[j], stroke[j], t, c)
}

/// Every visible text whose slab and drawing are there is drawn: each stroke, placed, with a
/// pen an eighth as wide as the text is high, on the slab of its layer. The reference shows
/// the designator of the component, the value its label, and a literal itself.
pub proof fn texts_are_drawn(
    ts: Seq<TextV>,
    c: ComponentV,
    su: Seq<SlabV>,
    refdes: Seq<char>,
    label: Seq<char>,
    font: Seq<(Seq<char>, Nm, InkV)>,
    i: int,
    k: int,
    e: int,
    m: int,
)
    requires
        0 <= i < ts.len(),
        !ts[i].hide,
        ts[i].height >= 8,
        is_slab(su, board_layer(c, ts[i].layer), k),
        0 <= e < font.len(),
        font[e].0 == match ts[i].kind {
            TextKindV::Reference => refdes,
            TextKindV::Label => label,
            TextKindV::Literal(s) => s,
        },
        font[e].1 == ts[i].height,
        forall|j: int| 0 <= j < e ==> (#[trigger] font[j]).0 != font[e].0 || font[j].1 != font[e].1,
        font[e].2 is Strokes,
        0 <= m < font[e].2->Strokes_0.len(),
        geometry::stroke_placeable(c, ts[i], font[e].2->Strokes_0[m]),
    ensures
        exists|f: FeatureV, path: Seq<Point>| #[trigger]
            geometry::texts_prefix(ts, ts.len(), c, su, refdes, label, font).contains(f) && f.role
                == su[k].role && f.z == su[k].z && f.shape == #[trigger] shape::trace_of(
                path,
                ts[i].height as int / 8,
            ) && is_written(path, font[e].2->Strokes_0[m], ts[i], c),
{
    let t = ts[i];
    let stroke = font[e].2->Strokes_0[m];
    slab_of_a_layer(c, t.layer, su);
    ink_is_first(font, font[e].0, t.height, e);
    let own = geometry::one_text(t, c, su, refdes, label, font);
    let f = own[m];
    let line = Seq::new(stroke.len(), |j: int| geometry::text_placed(c, t, stroke[j]));
    assert(own.contains(f));
    text_is_listed(ts, ts.len(), c, su, refdes, label, font, i, f);
    assert(f.shape == shape::trace_of(line, t.height as int / 8));
    assert forall|j: int| 0 <= j < stroke.len() implies is_written_at(
        #[trigger] line[j],
        stroke[j],
        t,
        c,
    ) by {
        assert(geometry::text_placeable(c, t, stroke[j]));
        let q = geometry::anchored(t, stroke[j]);
        assert(placed(c, q) == line[j]);
    }
    assert(is_written(line, stroke, t, c));
}

proof fn ink_is_first(v: Seq<(Seq<char>, Nm, InkV)>, s: Seq<char>, h: Nm, e: int)
    requires
        0 <= e < v.len(),
        v[e].0 == s,
        v[e].1 == h,
        forall|j: int| 0 <= j < e ==> (#[trigger] v[j]).0 != s || v[j].1 != h,
    ensures
        geometry::ink_of(v, s, h) == Some(v[e].2),
    decreases e,
{
    if e > 0 {
        assert(v[0].0 != s || v[0].1 != h);
        let t = v.skip(1);
        assert forall|j: int| 0 <= j < e - 1 implies (#[trigger] t[j]).0 != s || t[j].1 != h by {
            assert(v[j + 1].0 != s || v[j + 1].1 != h);
        }
        ink_is_first(t, s, h, e - 1);
    }
}

/// A hidden text draws nothing.
pub proof fn hidden_texts_draw_nothing(
    t: TextV,
    c: ComponentV,
    su: Seq<SlabV>,
    refdes: Seq<char>,
    label: Seq<char>,
    font: Seq<(Seq<char>, Nm, InkV)>,
)
    requires
        t.hide,
    ensures
        geometry::one_text(t, c, su, refdes, label, font).len() == 0,
{
}

// ---------------------------------------------------------------------------
// Courtyards.
// ---------------------------------------------------------------------------

/// The box reaches no farther than `x` to either side of the origin and `y` above and below.
pub open spec fn within(b: Option<(Point, Point)>, x: int, y: int) -> bool {
    b matches Some((lo, hi)) ==> -x <= lo.x <= x && -x <= hi.x <= x && -y <= lo.y <= y && -y <= hi.y
        <= y
}

/// The box reaches `x` to one side of the origin.
pub open spec fn reaches_x(b: Option<(Point, Point)>, x: int) -> bool {
    b matches Some((lo, hi)) && (lo.x == x || lo.x == -x || hi.x == x || hi.x == -x)
}

/// The box reaches `y` above or below the origin.
pub open spec fn reaches_y(b: Option<(Point, Point)>, y: int) -> bool {
    b matches Some((lo, hi)) && (lo.y == y || lo.y == -y || hi.y == y || hi.y == -y)
}

/// The copper region is one of a pad of the part.
pub open spec fn is_copper_of(p: PartV, s: ShapeV) -> bool {
    exists|i: int, j: int|
        0 <= i < p.pins.len() && (#[trigger] p.pins[i]).pad is Some && 0 <= j
            < p.pins[i].pad->0.copper.len() && (#[trigger] p.pins[i].pad->0.copper[j]).shape == s
}

proof fn copper_is_that_of_the_pads(p: PartV, n: nat, s: ShapeV)
    requires
        n <= p.pins.len(),
    ensures
        (exists|m: int|
            0 <= m < geometry::copper_prefix(p.pins, n).len() && (#[trigger] geometry::copper_prefix(
                p.pins,
                n,
            )[m]).shape == s) <==> (exists|i: int, j: int|
            0 <= i < n && (#[trigger] p.pins[i]).pad is Some && 0 <= j
                < p.pins[i].pad->0.copper.len() && (#[trigger] p.pins[i].pad->0.copper[j]).shape
                == s),
    decreases n,
{
    if n > 0 {
        copper_is_that_of_the_pads(p, (n - 1) as nat, s);
        let all = geometry::copper_prefix(p.pins, n);
        let done = geometry::copper_prefix(p.pins, (n - 1) as nat);
        let last = p.pins[n - 1];
        if exists|m: int| 0 <= m < all.len() && (#[trigger] all[m]).shape == s {
            let m = choose|m: int| 0 <= m < all.len() && (#[trigger] all[m]).shape == s;
            if m < done.len() {
                assert(done[m].shape == s);
            } else {
                assert(p.pins[n - 1].pad is Some && p.pins[n - 1].pad->0.copper[m - done.len()].shape
                    == s);
            }
        }
        if exists|i: int, j: int|
            0 <= i < n && (#[trigger] p.pins[i]).pad is Some && 0 <= j
                < p.pins[i].pad->0.copper.len() && (#[trigger] p.pins[i].pad->0.copper[j]).shape
                == s {
            let (i, j) = choose|i: int, j: int|
                0 <= i < n && (#[trigger] p.pins[i]).pad is Some && 0 <= j
                    < p.pins[i].pad->0.copper.len() && (#[trigger] p.pins[i].pad->0.copper[j]).shape
                    == s;
            if i < n - 1 {
                assert(p.pins[i].pad is Some && p.pins[i].pad->0.copper[j].shape == s);
                let m = choose|m: int| 0 <= m < done.len() && (#[trigger] done[m]).shape == s;
                assert(all[m].shape == s);
            } else {
                assert(all[done.len() + j].shape == s);
            }
        }
    }
}

proof fn reach_is_attained(cs: Seq<CopperV>)
    ensures
        match geometry::reach(cs) {
            Some((x, y)) => {
                &&& forall|m: int|
                    0 <= m < cs.len() ==> within(shape::bbox_of((#[trigger] cs[m]).shape), x, y)
                &&& exists|m: int|
                    0 <= m < cs.len() && reaches_x(shape::bbox_of((#[trigger] cs[m]).shape), x)
                &&& exists|m: int|
                    0 <= m < cs.len() && reaches_y(shape::bbox_of((#[trigger] cs[m]).shape), y)
            },
            None => forall|m: int|
                0 <= m < cs.len() ==> shape::bbox_of((#[trigger] cs[m]).shape) is None,
        },
    decreases cs.len(),
{
    if cs.len() > 0 {
        let t = cs.drop_last();
        reach_is_attained(t);
        assert forall|m: int| 0 <= m < t.len() implies #[trigger] t[m] == cs[m] by {}
        let last = cs[cs.len() - 1];
        assert(last == cs.last());
        if let Some((x, y)) = geometry::reach(t) {
            let a = choose|m: int|
                0 <= m < t.len() && reaches_x(shape::bbox_of((#[trigger] t[m]).shape), x);
            let b = choose|m: int|
                0 <= m < t.len() && reaches_y(shape::bbox_of((#[trigger] t[m]).shape), y);
            assert(cs[a] == t[a] && cs[b] == t[b]);
        }
        assert forall|m: int| 0 <= m < cs.len() implies {
            match geometry::reach(cs) {
                Some((x, y)) => within(shape::bbox_of((#[trigger] cs[m]).shape), x, y),
                None => shape::bbox_of(cs[m].shape) is None,
            }
        } by {
            if m < t.len() {
                assert(t[m] == cs[m]);
            }
        }
        if let Some((x, y)) = geometry::reach(cs) {
            assert(reaches_x(shape::bbox_of(last.shape), x) || exists|m: int|
                0 <= m < t.len() && reaches_x(shape::bbox_of((#[trigger] t[m]).shape), x));
            assert(reaches_y(shape::bbox_of(last.shape), y) || exists|m: int|
                0 <= m < t.len() && reaches_y(shape::bbox_of((#[trigger] t[m]).shape), y));
        }
    }
}

/// The courtyard of a part without an imported one reaches a quarter of a millimetre beyond its
/// copper, and no farther: all copper lies that much within it, and some copper reaches that
/// near to it on each axis.
pub proof fn courtyard_is_the_margin_around_the_copper(p: PartV, s: ShapeV)
    requires
        p.courtyard is None,
        is_copper_of(p, s),
        shape::bbox_of(s) is Some,
    ensures
        ({
            let (x, y) = geometry::extents(p);
            &&& within(shape::bbox_of(s), x - 250_000, y - 250_000)
            &&& exists|t: ShapeV| #[trigger]
                is_copper_of(p, t) && reaches_x(shape::bbox_of(t), x - 250_000)
            &&& exists|t: ShapeV| #[trigger]
                is_copper_of(p, t) && reaches_y(shape::bbox_of(t), y - 250_000)
        }),
{
    let cs = geometry::all_copper(p);
    copper_is_that_of_the_pads(p, p.pins.len(), s);
    reach_is_attained(cs);
    let m = choose|m: int| 0 <= m < cs.len() && (#[trigger] cs[m]).shape == s;
    let (x, y) = geometry::reach(cs)->0;
    assert(within(shape::bbox_of(cs[m].shape), x, y));
    let a = choose|a: int|
        0 <= a < cs.len() && reaches_x(shape::bbox_of((#[trigger] cs[a]).shape), x);
    let b = choose|b: int|
        0 <= b < cs.len() && reaches_y(shape::bbox_of((#[trigger] cs[b]).shape), y);
    copper_is_that_of_the_pads(p, p.pins.len(), cs[a].shape);
    copper_is_that_of_the_pads(p, p.pins.len(), cs[b].shape);
    assert(is_copper_of(p, cs[a].shape) && is_copper_of(p, cs[b].shape));
}

/// The extents of a part with an imported courtyard are those of its box.
pub proof fn imported_courtyard_counts(p: PartV, s: ShapeV)
    requires
        p.courtyard == Some(s),
        shape::bbox_of(s) is Some,
    ensures
        ({
            let (x, y) = geometry::extents(p);
            &&& within(shape::bbox_of(s), x, y)
            &&& reaches_x(shape::bbox_of(s), x)
            &&& reaches_y(shape::bbox_of(s), y)
        }),
{
}

// ---------------------------------------------------------------------------
// Selectors.
// ---------------------------------------------------------------------------

proof fn named_pins(pins: Seq<PinV>, sel: Seq<char>, n: Seq<char>)
    ensures
        super::numbers_named(pins, sel).contains(n) <==> exists|i: int|
            0 <= i < pins.len() && (#[trigger] pins[i]).name == sel && pins[i].number == n,
        super::numbers_equal(pins, sel).contains(n) <==> n == sel && exists|i: int|
            0 <= i < pins.len() && (#[trigger] pins[i]).number == sel,
    decreases pins.len(),
{
    if pins.len() > 0 {
        let t = pins.drop_last();
        let last = pins[pins.len() - 1];
        named_pins(t, sel, n);
        assert forall|i: int| 0 <= i < t.len() implies #[trigger] t[i] == pins[i] by {}
        let (a, b) = (super::numbers_named(pins, sel), super::numbers_named(t, sel));
        let (c, d) = (super::numbers_equal(pins, sel), super::numbers_equal(t, sel));
        if last.name == sel {
            pushed(b, last.number, n);
        }
        if last.number == sel {
            pushed(d, last.number, n);
        }
        if exists|i: int|
            0 <= i < pins.len() && (#[trigger] pins[i]).name == sel && pins[i].number == n {
            let i = choose|i: int|
                0 <= i < pins.len() && (#[trigger] pins[i]).name == sel && pins[i].number == n;
            if i < t.len() {
                assert(t[i].name == sel && t[i].number == n);
            }
        }
        if exists|i: int| 0 <= i < pins.len() && (#[trigger] pins[i]).number == sel {
            let i = choose|i: int| 0 <= i < pins.len() && (#[trigger] pins[i]).number == sel;
            if i < t.len() {
                assert(t[i].number == sel);
            }
        }
        if exists|i: int| 0 <= i < t.len() && (#[trigger] t[i]).name == sel && t[i].number == n {
            let i = choose|i: int|
                0 <= i < t.len() && (#[trigger] t[i]).name == sel && t[i].number == n;
            assert(pins[i].name == sel && pins[i].number == n);
        }
        if exists|i: int| 0 <= i < t.len() && (#[trigger] t[i]).number == sel {
            let i = choose|i: int| 0 <= i < t.len() && (#[trigger] t[i]).number == sel;
            assert(pins[i].number == sel);
        }
        assert(pins.last() == last);
    }
}

proof fn pushed(v: Seq<Seq<char>>, x: Seq<char>, n: Seq<char>)
    ensures
        v.push(x).contains(n) <==> v.contains(n) || n == x,
{
    let w = v.push(x);
    if v.contains(n) {
        let i = choose|i: int| 0 <= i < v.len() && v[i] == n;
        assert(w[i] == n);
    }
    if n == x {
        assert(w[v.len() as int] == n);
    }
    if w.contains(n) {
        let i = choose|i: int| 0 <= i < w.len() && w[i] == n;
        if i < v.len() {
            assert(v[i] == n);
        }
    }
}

/// A selector without a dot names every pad of that name; only where no pad has the name does
/// it name the pad of that number.
pub proof fn a_name_selects_all_its_pads(p: PartV, sel: Seq<char>, n: Seq<char>)
    requires
        !sel.contains('.'),
    ensures
        super::selected(p, sel).contains(n) <==> if exists|i: int|
            0 <= i < p.pins.len() && (#[trigger] p.pins[i]).name == sel {
            exists|i: int|
                0 <= i < p.pins.len() && (#[trigger] p.pins[i]).name == sel && p.pins[i].number == n
        } else {
            n == sel && exists|i: int| 0 <= i < p.pins.len() && (#[trigger] p.pins[i]).number == sel
        },
{
    crate::text::find_char_is_first(sel, '.');
    let f = crate::text::find_char(sel, '.');
    if f < sel.len() {
        assert(sel[f] == '.');
    }
    named_pins(p.pins, sel, n);
    let by_name = super::numbers_named(p.pins, sel);
    if exists|i: int| 0 <= i < p.pins.len() && (#[trigger] p.pins[i]).name == sel {
        let i = choose|i: int| 0 <= i < p.pins.len() && (#[trigger] p.pins[i]).name == sel;
        named_pins(p.pins, sel, p.pins[i].number);
        assert(by_name.contains(p.pins[i].number));
        assert(by_name.len() > 0);
    } else if by_name.len() > 0 {
        named_pins(p.pins, sel, by_name[0]);
        assert(by_name.contains(by_name[0]));
    }
}

/// A selector `port.signal` names that signal exactly when the part has it.
pub proof fn a_signal_selects_itself(p: PartV, port: Seq<char>, sig: Seq<char>)
    requires
        !port.contains('.'),
        crate::names::sorted(p.interfaces),
    ensures
        ({
            let sel = port + seq!['.'] + sig;
            super::selected(p, sel) == if exists|e: int|
                0 <= e < p.interfaces.len() && (#[trigger] p.interfaces[e]).0 == port
                    && crate::names::has(p.interfaces[e].1.signals, sig) {
                seq![sel]
            } else {
                Seq::empty()
            }
        }),
{
    let sel = port + seq!['.'] + sig;
    crate::text::find_char_is_first(sel, '.');
    let f = crate::text::find_char(sel, '.');
    let n = port.len() as int;
    assert(sel[n] == '.');
    if f < n {
        assert(port[f] == sel[f]);
        assert(port.contains(port[f]));
    }
    assert(sel.take(f) =~= port && sel.skip(f + 1) =~= sig);
    crate::names::has_is_membership(p.interfaces, port);
    if crate::names::has(p.interfaces, port) {
        let e = crate::names::place(p.interfaces, port);
        assert(p.interfaces[e].0 == port);
    }
}

/// A text is drawn with a pen of an eighth of its height, and with one that draws at all.
pub proof fn the_pen_is_an_eighth_of_the_height(h: Nm)
    ensures
        geometry::pen_of(h) >= 1,
        h >= 8 ==> 8 * geometry::pen_of(h) <= h < 8 * (geometry::pen_of(h) + 1),
        h < 8 ==> geometry::pen_of(h) == 1,
{
}

} // verus!
