//! Where the pads of a placed component are: on which slabs, and what shape they have.

use super::geometry;
use super::geometry::placed;
use super::{CopperV, Drill, PadLayers, PartV, PinV};
use crate::coord;
use crate::coord::Point;
use crate::doc::ComponentV;
use crate::geom::feature::FeatureV;
use crate::geom::path;
use crate::geom::path::{PathV, Seg};
use crate::geom::shape;
use crate::geom::shape::ShapeV;
use crate::geom::stackup;
use crate::geom::stackup::{Role, SlabV};
use crate::text;
use vstd::prelude::*;

verus! {

/// The component is turned over: its top faces down.
pub open spec fn upside_down(c: ComponentV) -> bool {
    coord::upness(c.orient) < 0
}

/// Copper of those layers, on the component as placed, is on copper slab `k` of `n`, counted
/// from the top: on all of them for a through pad, on the outermost of its side else. A
/// component that is turned over has its top copper at the bottom of the board.
pub open spec fn is_on(layers: PadLayers, c: ComponentV, k: int, n: int) -> bool {
    match layers {
        PadLayers::Through => true,
        PadLayers::Top => k == if upside_down(c) {
            n - 1
        } else {
            0
        },
        PadLayers::Bottom => k == if upside_down(c) {
            0
        } else {
            n - 1
        },
    }
}

/// The shape is the other one, moved point by point to where the component puts it.
pub open spec fn is_moved(s: ShapeV, from: ShapeV, c: ComponentV) -> bool {
    let (a, b) = (shape::defining_points(from), shape::defining_points(s));
    &&& s is Stroke == from is Stroke
    &&& s is Polygon == from is Polygon
    &&& shape::radius_of(s) == shape::radius_of(from)
    &&& b.len() == a.len()
    &&& forall|i: int| 0 <= i < a.len() ==> #[trigger] b[i] == placed(c, a[i])
}

proof fn defining_points_move(p: PathV, g: spec_fn(Point) -> Point, k: nat)
    requires
        k <= p.segs.len(),
    ensures
        path::defining_prefix(path::path_map(p, g), k) == path::defining_prefix(p, k).map_values(g),
    decreases k,
{
    let q = path::path_map(p, g);
    if k == 0 {
        assert(path::defining_prefix(q, 0) =~= path::defining_prefix(p, 0).map_values(g));
    } else {
        defining_points_move(p, g, (k - 1) as nat);
        let s = p.segs[k - 1];
        assert(path::seg_points(q.segs[k - 1]) =~= path::seg_points(s).map_values(g));
        assert(path::defining_prefix(q, k) =~= path::defining_prefix(p, k).map_values(g));
    }
}

/// A placed shape is the shape moved point by point.
pub proof fn placing_moves_every_point(c: ComponentV, s: ShapeV)
    requires
        !(s is Area),
    ensures
        is_moved(geometry::placed_shape(c, s), s, c),
{
    let g = |p: Point| placed(c, p);
    let p = shape::path_of(s);
    defining_points_move(p, g, p.segs.len());
    let m = path::defining_of(p).map_values(g);
    assert(shape::defining_points(geometry::placed_shape(c, s)) == m);
    assert forall|i: int| 0 <= i < m.len() implies #[trigger] m[i] == placed(
        c,
        path::defining_of(p)[i],
    ) by {}
}

/// A point that a component moves goes where its turn takes it, from where the component is.
pub proof fn placing_turns_then_moves(c: ComponentV, p: Point)
    requires
        geometry::placeable(c, p),
    ensures
        placed(c, p).x == c.pos.value.x + coord::turned(c.orient, p).x,
        placed(c, p).y == c.pos.value.y + coord::turned(c.orient, p).y,
{
}

proof fn listed(
    c: ComponentV,
    copper: Seq<CopperV>,
    n: nat,
    su: Seq<SlabV>,
    i: int,
    f: FeatureV,
)
    requires
        0 <= i < n <= copper.len(),
        geometry::conductors_of(c, copper[i], su).contains(f) || geometry::openings_of(
            c,
            copper[i],
            su,
        ).contains(f),
    ensures
        geometry::copper_features(c, copper, n, su).contains(f),
    decreases n,
{
    let done = geometry::copper_features(c, copper, (n - 1) as nat, su);
    let on = geometry::conductors_of(c, copper[n - 1], su);
    let off = geometry::openings_of(c, copper[n - 1], su);
    let all = geometry::copper_features(c, copper, n, su);
    if i < n - 1 {
        listed(c, copper, (n - 1) as nat, su, i, f);
        let j = choose|j: int| 0 <= j < done.len() && done[j] == f;
        assert(all[j] == f);
    } else if on.contains(f) {
        let j = choose|j: int| 0 <= j < on.len() && on[j] == f;
        assert(all[done.len() + j] == f);
    } else {
        let j = choose|j: int| 0 <= j < off.len() && off[j] == f;
        assert(all[done.len() + on.len() + j] == f);
    }
}

proof fn listed_from(c: ComponentV, copper: Seq<CopperV>, n: nat, su: Seq<SlabV>, f: FeatureV) -> (i:
    int)
    requires
        n <= copper.len(),
        geometry::copper_features(c, copper, n, su).contains(f),
    ensures
        0 <= i < n,
        geometry::conductors_of(c, copper[i], su).contains(f) || geometry::openings_of(
            c,
            copper[i],
            su,
        ).contains(f),
    decreases n,
{
    let all = geometry::copper_features(c, copper, n, su);
    let j = choose|j: int| 0 <= j < all.len() && all[j] == f;
    let done = geometry::copper_features(c, copper, (n - 1) as nat, su);
    let on = geometry::conductors_of(c, copper[n - 1], su);
    let off = geometry::openings_of(c, copper[n - 1], su);
    if j < done.len() {
        assert(done[j] == f);
        listed_from(c, copper, (n - 1) as nat, su, f)
    } else if j < done.len() + on.len() {
        assert(on[j - done.len()] == f);
        n - 1
    } else {
        assert(off[j - done.len() - on.len()] == f);
        n - 1
    }
}

proof fn in_front(pin: PinV, c: ComponentV, su: Seq<SlabV>, f: FeatureV)
    requires
        pin.pad is Some,
        geometry::copper_features(c, pin.pad->0.copper, pin.pad->0.copper.len(), su).contains(f),
    ensures
        geometry::pad_features_of(pin, c, su).contains(f),
{
    let pad = pin.pad->0;
    let own = geometry::copper_features(c, pad.copper, pad.copper.len(), su);
    let j = choose|j: int| 0 <= j < own.len() && own[j] == f;
    assert(geometry::pad_features_of(pin, c, su)[j] == f);
}

// ---------------------------------------------------------------------------
// Laws.
// ---------------------------------------------------------------------------

/// Every copper region of a pad is copper of the board on each slab that it is on, moved with
/// its component.
pub proof fn pad_copper_is_on_its_slabs(pin: PinV, c: ComponentV, su: Seq<SlabV>, i: int, k: int)
    requires
        pin.pad is Some,
        0 <= i < pin.pad->0.copper.len(),
        !(pin.pad->0.copper[i].shape is Area),
        0 <= k < stackup::copper_of(su).len(),
        is_on(pin.pad->0.copper[i].layers, c, k, stackup::copper_of(su).len() as int),
    ensures
        exists|f: FeatureV| #[trigger]
            geometry::pad_features_of(pin, c, su).contains(f) && f.role == Role::Conductor && f.z
                == stackup::copper_of(su)[k].z && is_moved(
                f.shape,
                pin.pad->0.copper[i].shape,
                c,
            ),
{
    let pad = pin.pad->0;
    let x = pad.copper[i];
    let on = geometry::conductors_of(c, x, su);
    let j = if x.layers == PadLayers::Through {
        k
    } else {
        0
    };
    let f = on[j];
    assert(on.contains(f));
    listed(c, pad.copper, pad.copper.len(), su, i, f);
    in_front(pin, c, su, f);
    placing_moves_every_point(c, x.shape);
    assert(geometry::pad_features_of(pin, c, su).contains(f));
}

/// A pad has no other copper: each of its conductors is one of its copper regions, moved with
/// the component, on a slab that the region is on.
pub proof fn pad_has_no_other_copper(pin: PinV, c: ComponentV, su: Seq<SlabV>, f: FeatureV)
    requires
        pin.pad is Some,
        forall|i: int|
            0 <= i < pin.pad->0.copper.len() ==> !((#[trigger] pin.pad->0.copper[i]).shape is Area),
        geometry::pad_features_of(pin, c, su).contains(f),
        f.role == Role::Conductor,
    ensures
        exists|i: int, k: int|
            0 <= i < pin.pad->0.copper.len() && 0 <= k < stackup::copper_of(su).len() && is_on(
                (#[trigger] pin.pad->0.copper[i]).layers,
                c,
                k,
                stackup::copper_of(su).len() as int,
            ) && f.z == (#[trigger] stackup::copper_of(su)[k]).z && is_moved(
                f.shape,
                pin.pad->0.copper[i].shape,
                c,
            ),
{
    let pad = pin.pad->0;
    let cu = stackup::copper_of(su);
    let all = geometry::pad_features_of(pin, c, su);
    let own = geometry::copper_features(c, pad.copper, pad.copper.len(), su);
    let j = choose|j: int| 0 <= j < all.len() && all[j] == f;
    assert(j < own.len());
    assert(own[j] == f);
    let i = listed_from(c, pad.copper, pad.copper.len(), su, f);
    let x = pad.copper[i];
    let on = geometry::conductors_of(c, x, su);
    assert(on.contains(f));
    let m = choose|m: int| 0 <= m < on.len() && on[m] == f;
    let k = if x.layers == PadLayers::Through {
        m
    } else if geometry::lands_on_top(c, x.layers) {
        0
    } else {
        cu.len() - 1
    };
    assert(0 <= k < cu.len() && cu[k].z == f.z);
    placing_moves_every_point(c, x.shape);
    assert(pad.copper[i] == x);
}

/// The mask is open over every copper region on each side where the region is: the region,
/// moved, and larger by fifty micrometres all round.
pub proof fn mask_is_open_over_pads(pin: PinV, c: ComponentV, su: Seq<SlabV>, i: int, top: bool)
    requires
        pin.pad is Some,
        0 <= i < pin.pad->0.copper.len(),
        !(pin.pad->0.copper[i].shape is Area),
        0 <= shape::radius_of(pin.pad->0.copper[i].shape),
        shape::radius_of(pin.pad->0.copper[i].shape) + 50_000 <= i64::MAX,
        match pin.pad->0.copper[i].layers {
            PadLayers::Through => true,
            PadLayers::Top => top != upside_down(c),
            PadLayers::Bottom => top == upside_down(c),
        },
        if top {
            stackup::top_mask_of(su) is Some
        } else {
            stackup::bottom_mask_of(su) is Some
        },
    ensures
        exists|f: FeatureV| #[trigger]
            geometry::pad_features_of(pin, c, su).contains(f) && f.role == Role::Void && Some(f.z)
                == (if top {
                stackup::top_mask_of(su)
            } else {
                stackup::bottom_mask_of(su)
            }) && shape::radius_of(f.shape) == shape::radius_of(pin.pad->0.copper[i].shape) + 50_000
                && is_moved(shape::inflate(f.shape, -50_000), pin.pad->0.copper[i].shape, c),
{
    let pad = pin.pad->0;
    let x = pad.copper[i];
    let off = geometry::openings_of(c, x, su);
    let s = geometry::placed_shape(c, x.shape);
    let w = shape::inflate(s, 50_000);
    let z = if top {
        stackup::top_mask_of(su)->0
    } else {
        stackup::bottom_mask_of(su)->0
    };
    let f = crate::geom::feature::prism_of(Role::Void, w, z);
    assert(off.contains(f)) by {
        if x.layers == PadLayers::Through && !top && stackup::top_mask_of(su) is Some {
            assert(off[1] == f);
        } else {
            assert(off[0] == f);
        }
    }
    listed(c, pad.copper, pad.copper.len(), su, i, f);
    in_front(pin, c, su, f);
    placing_moves_every_point(c, x.shape);
    assert(shape::inflate(w, -50_000) == s);
    assert(geometry::pad_features_of(pin, c, su).contains(f));
}

/// A drilled pad has a plated hole through the whole board, moved with its component: round
/// about the pin for a round drill, along the slot else, half as wide to either side as the
/// drill.
pub proof fn drilled_pad_has_its_hole(pin: PinV, c: ComponentV, su: Seq<SlabV>)
    requires
        pin.pad is Some,
        pin.pad->0.drill is Some,
        su.len() > 0,
    ensures
        exists|f: FeatureV| #[trigger]
            geometry::pad_features_of(pin, c, su).contains(f) && f.role == Role::Void && Some(f.z)
                == stackup::full_z_of(su) && f.material == Some("copper"@) && is_hole(
                f.shape,
                pin.pad->0.drill->0,
                pin.offset,
                c,
            ),
{
    let pad = pin.pad->0;
    let d = pad.drill->0;
    let all = geometry::pad_features_of(pin, c, su);
    stackup::full_z_holds_all(su);
    let f = geometry::drill_features(c, pad.drill, pin.offset, su)[0];
    let own = geometry::copper_features(c, pad.copper, pad.copper.len(), su);
    assert(all[own.len() as int] == f);
    assert(all.contains(f));
    placing_moves_every_point(c, geometry::drill_shape(d, pin.offset));
    let g = |p: Point| placed(c, p);
    match d {
        Drill::Round { .. } => {
            assert(shape::path_of(f.shape).segs =~= Seq::empty());
        },
        Drill::Slot { a, b, .. } => {
            assert(shape::path_of(f.shape).segs =~= seq![Seg::Line { end: placed(c, b) }]);
        },
    }
}

/// The shape is the hole of a drill on a placed component.
pub open spec fn is_hole(s: ShapeV, d: Drill, offset: Point, c: ComponentV) -> bool {
    match d {
        Drill::Round { d } => s == (ShapeV::Stroke {
            path: PathV { start: placed(c, offset), segs: Seq::empty() },
            radius: (if d >= 0 {
                d as int / 2
            } else {
                -((-d) / 2)
            }) as i64,
        }),
        Drill::Slot { a, b, d } => s == (ShapeV::Stroke {
            path: PathV { start: placed(c, a), segs: seq![Seg::Line { end: placed(c, b) }] },
            radius: (if d >= 0 {
                d as int / 2
            } else {
                -((-d) / 2)
            }) as i64,
        }),
    }
}

/// A pin named by its number lies where its part puts it.
pub proof fn pins_lie_where_their_part_puts_them(p: PartV, id: Seq<char>, k: int)
    requires
        0 <= k < p.pins.len(),
        p.pins[k].number == id,
        forall|i: int| 0 <= i < k ==> (#[trigger] p.pins[i]).number != id,
        !id.contains('.'),
    ensures
        super::offset_of(p, id) == Some(p.pins[k].offset),
        super::role_of(p, id) == Some(p.pins[k].role),
{
    super::pin_index_is_first(p.pins, id);
    text::find_char_is_first(id, '.');
    let q = super::pin_index(p.pins, id);
    if q < k {
        assert(p.pins[q].number != id);
    }
    let f = text::find_char(id, '.');
    if f < id.len() {
        assert(id[f] == '.');
    }
}

} // verus!
