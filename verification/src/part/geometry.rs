//! Placed parts: pads, graphics, texts and courtyards folded from component-local
//! geometry into world-frame features.

use super::{
    CopperV, Drill, FpGraphic, FpText, FpTextKind, GraphicV, PadCopper, PadGeo, PadLayers, PartDef,
    PartV, PinDef, PinV, TextKindV, TextV,
};
use crate::coord;
use crate::coord::{Nm, Point};
use crate::doc::{Component, ComponentV};
use crate::geom::feature;
use crate::geom::feature::{Feature, FeatureV};
use crate::geom::hull;
use crate::geom::hull::convex_hull;
use crate::geom::limits;
use crate::geom::limits::MASK_EXPANSION;
use crate::geom::path;
use crate::geom::path::Path;
use crate::geom::shape;
use crate::geom::shape::{Shape2D, ShapeV};
use crate::geom::stackup;
use crate::geom::stackup::{Material, Role, SlabV, Stackup, ZRange};
use crate::text;
use crate::text::{cat, chars_of, slice_string, str_eq};
use vstd::prelude::*;

verus! {

/// The margin around a part's copper that forms its courtyard.
pub const COURTYARD_MARGIN: Nm = 250_000;

// ---------------------------------------------------------------------------
// Placement.
// ---------------------------------------------------------------------------

/// A local point on a placed component, in the world: turned, then moved.
pub open spec fn placed(c: ComponentV, p: Point) -> Point {
    let r = coord::turned(c.orient, p);
    Point { x: (c.pos.value.x + r.x) as i64, y: (c.pos.value.y + r.y) as i64 }
}

/// The point can be turned exactly and lands within the coordinate range.
pub open spec fn placeable(c: ComponentV, p: Point) -> bool {
    let r = coord::turned(c.orient, p);
    &&& limits::pt_exact(p)
    &&& i64::MIN <= c.pos.value.x + r.x <= i64::MAX
    &&& i64::MIN <= c.pos.value.y + r.y <= i64::MAX
}

/// A local shape on a placed component, in the world.
pub open spec fn placed_shape(c: ComponentV, s: ShapeV) -> ShapeV {
    shape::shape_map(s, |p: Point| placed(c, p))
}

/// Every defining point of the shape can be placed; the rings of an area stay within the
/// range in which their winding can be measured.
pub open spec fn shape_placeable(c: ComponentV, s: ShapeV) -> bool {
    &&& forall|p: Point| #[trigger] shape::defining_points(s).contains(p) ==> placeable(c, p)
    &&& s is Area ==> {
        &&& shape::shape_safe(s)
        &&& forall|p: Point| #[trigger]
            shape::defining_points(s).contains(p) ==> limits::pt_safe(placed(c, p))
    }
}

/// Lift a component-local point into the world.
pub fn to_world(comp: &Component, p: Point) -> (r: Point)
    requires
        placeable(comp@, p),
    ensures
        r == placed(comp@, p),
{
    let r = comp.orient.apply(p);
    Point { x: comp.pos.value.x + r.x, y: comp.pos.value.y + r.y }
}

/// The world position of a pin of a placed component; `None` for an unknown pin.
pub fn pin_world(comp: &Component, def: &PartDef, pin: &str) -> (r: Option<Point>)
    requires
        super::offset_of(def@, pin@) is Some ==> placeable(
            comp@,
            super::offset_of(def@, pin@)->0,
        ),
    ensures
        r == match super::offset_of(def@, pin@) {
            Some(p) => Some(placed(comp@, p)),
            None => None,
        },
{
    match def.pin_offset(pin) {
        Some(off) => Some(to_world(comp, off)),
        None => None,
    }
}

/// A component-local shape in the world.
pub fn shape_world(comp: &Component, s: &Shape2D) -> (r: Shape2D)
    requires
        shape_placeable(comp@, s@),
    ensures
        r@ == placed_shape(comp@, s@),
{
    let f = |p: Point| -> (q: Point)
        requires
            placeable(comp@, p),
        ensures
            q == placed(comp@, p),
        { to_world(comp, p) };
    let r = s.map_points(f);
    proof {
        shape::shape_mapped_is_map(s@, r@, &f, |p: Point| placed(comp@, p));
    }
    r
}

/// The world-frame copper of a pad region on a placed component.
pub fn pad_copper_world(comp: &Component, c: &PadCopper) -> (r: Shape2D)
    requires
        shape_placeable(comp@, c@.shape),
    ensures
        r@ == placed_shape(comp@, c@.shape),
{
    shape_world(comp, &c.shape)
}

// ---------------------------------------------------------------------------
// Pads.
// ---------------------------------------------------------------------------

/// A prism at `z`, where there is one.
pub open spec fn opt_prism(role: Role, s: ShapeV, z: Option<ZRange>) -> Seq<FeatureV> {
    match z {
        Some(z) => seq![feature::prism_of(role, s, z)],
        None => Seq::empty(),
    }
}

/// Is the copper on the top of the board? A part on the bottom side swaps its outer
/// layers.
pub open spec fn lands_on_top(c: ComponentV, layers: PadLayers) -> bool {
    (layers == PadLayers::Top) != (coord::upness(c.orient) < 0)
}

/// The conductors of one copper region: one on each copper slab for a through pad, one on
/// the outer copper of its side otherwise.
pub open spec fn conductors_of(c: ComponentV, cu: CopperV, su: Seq<SlabV>) -> Seq<FeatureV> {
    let w = placed_shape(c, cu.shape);
    if cu.layers == PadLayers::Through {
        let slabs = stackup::copper_of(su);
        Seq::new(slabs.len(), |i: int| feature::prism_of(Role::Conductor, w, slabs[i].z))
    } else if lands_on_top(c, cu.layers) {
        opt_prism(Role::Conductor, w, stackup::top_copper_of(su))
    } else {
        opt_prism(Role::Conductor, w, stackup::bottom_copper_of(su))
    }
}

/// The solder-mask openings of one copper region, on the sides where it is exposed.
pub open spec fn openings_of(c: ComponentV, cu: CopperV, su: Seq<SlabV>) -> Seq<FeatureV> {
    let w = shape::inflate(placed_shape(c, cu.shape), MASK_EXPANSION as int);
    if cu.layers == PadLayers::Through {
        opt_prism(Role::Void, w, stackup::top_mask_of(su)) + opt_prism(
            Role::Void,
            w,
            stackup::bottom_mask_of(su),
        )
    } else if lands_on_top(c, cu.layers) {
        opt_prism(Role::Void, w, stackup::top_mask_of(su))
    } else {
        opt_prism(Role::Void, w, stackup::bottom_mask_of(su))
    }
}

/// The features of the first `k` copper regions.
pub open spec fn copper_features(
    c: ComponentV,
    copper: Seq<CopperV>,
    k: nat,
    su: Seq<SlabV>,
) -> Seq<FeatureV>
    decreases k,
{
    if k == 0 {
        Seq::empty()
    } else {
        copper_features(c, copper, (k - 1) as nat, su) + conductors_of(c, copper[k - 1], su)
            + openings_of(c, copper[k - 1], su)
    }
}

/// The hole of a pad whose centre is `offset`, in local coordinates.
pub open spec fn drill_shape(d: Drill, offset: Point) -> ShapeV {
    match d {
        Drill::Round { d } => shape::disc_of(offset, path::half(d as int)),
        Drill::Slot { a, b, d } => shape::capsule_of(a, b, path::half(d as int)),
    }
}

/// The plated hole of a pad, through the whole stackup.
pub open spec fn drill_features(
    c: ComponentV,
    d: Option<Drill>,
    offset: Point,
    su: Seq<SlabV>,
) -> Seq<FeatureV> {
    match (d, stackup::full_z_of(su)) {
        (Some(d), Some(z)) => seq![
            FeatureV {
                material: Some("copper"@),
                ..feature::prism_of(Role::Void, placed_shape(c, drill_shape(d, offset)), z)
            },
        ],
        _ => Seq::empty(),
    }
}

/// The physical features of a pin's pad on a placed component.
pub open spec fn pad_features_of(pin: PinV, c: ComponentV, su: Seq<SlabV>) -> Seq<FeatureV> {
    match pin.pad {
        None => Seq::empty(),
        Some(pad) => copper_features(c, pad.copper, pad.copper.len(), su) + drill_features(
            c,
            pad.drill,
            pin.offset,
            su,
        ),
    }
}

/// A copper region that can be placed and given a mask opening.
pub open spec fn copper_placeable(c: ComponentV, cu: CopperV) -> bool {
    &&& shape_placeable(c, cu.shape)
    &&& !(cu.shape is Area)
    &&& shape::radius_of(cu.shape) + MASK_EXPANSION <= i64::MAX
}

/// A pin whose pad can be placed.
pub open spec fn pad_placeable(pin: PinV, c: ComponentV) -> bool {
    match pin.pad {
        None => true,
        Some(pad) => {
            &&& forall|i: int|
                0 <= i < pad.copper.len() ==> copper_placeable(c, #[trigger] pad.copper[i])
            &&& match pad.drill {
                Some(d) => shape_placeable(c, drill_shape(d, pin.offset)),
                None => true,
            }
        },
    }
}

/// `out` with the features `more` behind it.
fn push_prism(out: &mut Vec<Feature>, role: Role, s: &Shape2D, z: Option<ZRange>)
    ensures
        feature::feature_views(final(out)@) == feature::feature_views(old(out)@) + opt_prism(
            role,
            s@,
            z,
        ),
{
    let ghost before = out@;
    if let Some(z) = z {
        out.push(Feature::prism(role, s.clone(), z));
    }
    assert(feature::feature_views(out@) =~= feature::feature_views(before) + opt_prism(
        role,
        s@,
        z,
    ));
}

fn push_conductors(
    out: &mut Vec<Feature>,
    world: &Shape2D,
    layers: PadLayers,
    flipped: bool,
    stackup: &Stackup,
    Ghost(c): Ghost<ComponentV>,
    Ghost(cu): Ghost<CopperV>,
)
    requires
        world@ == placed_shape(c, cu.shape),
        layers == cu.layers,
        flipped == (coord::upness(c.orient) < 0),
    ensures
        feature::feature_views(final(out)@) == feature::feature_views(old(out)@) + conductors_of(
            c,
            cu,
            stackup@,
        ),
{
    match layers {
        PadLayers::Through => {
            let ghost before = feature::feature_views(out@);
            let ghost want = conductors_of(c, cu, stackup@);
            let slabs = stackup.copper_slabs();
            assert(slabs.len() == stackup::slab_refs(slabs@).len());
            let mut i: usize = 0;
            assert(feature::feature_views(out@) =~= before + want.take(0));
            while i < slabs.len()
                invariant
                    i <= slabs.len(),
                    stackup::slab_refs(slabs@) == stackup::copper_of(stackup@),
                    want.len() == slabs.len(),
                    want == Seq::new(
                        slabs@.len(),
                        |j: int|
                            feature::prism_of(
                                Role::Conductor,
                                world@,
                                stackup::copper_of(stackup@)[j].z,
                            ),
                    ),
                    feature::feature_views(out@) == before + want.take(i as int),
                decreases slabs.len() - i,
            {
                let ghost seen = out@;
                assert(stackup::slab_refs(slabs@)[i as int].z == slabs@[i as int].z);
                out.push(Feature::prism(Role::Conductor, world.clone(), slabs[i].z));
                assert(feature::feature_views(out@) =~= feature::feature_views(seen).push(
                    want[i as int],
                ));
                assert(before + want.take(i + 1) =~= (before + want.take(i as int)).push(
                    want[i as int],
                ));
                i += 1;
            }
            assert(want.take(i as int) =~= want);
        },
        _ => {
            let top = (layers == PadLayers::Top) != flipped;
            let z = if top {
                stackup.top_copper()
            } else {
                stackup.bottom_copper()
            };
            push_prism(out, Role::Conductor, world, z);
        },
    }
}

fn push_openings(
    out: &mut Vec<Feature>,
    opening: &Shape2D,
    layers: PadLayers,
    flipped: bool,
    stackup: &Stackup,
    Ghost(c): Ghost<ComponentV>,
    Ghost(cu): Ghost<CopperV>,
)
    requires
        opening@ == shape::inflate(placed_shape(c, cu.shape), MASK_EXPANSION as int),
        layers == cu.layers,
        flipped == (coord::upness(c.orient) < 0),
    ensures
        feature::feature_views(final(out)@) == feature::feature_views(old(out)@) + openings_of(
            c,
            cu,
            stackup@,
        ),
{
    let ghost before = feature::feature_views(out@);
    match layers {
        PadLayers::Through => {
            push_prism(out, Role::Void, opening, stackup.top_mask());
            push_prism(out, Role::Void, opening, stackup.bottom_mask());
            assert(feature::feature_views(out@) =~= before + openings_of(c, cu, stackup@));
        },
        _ => {
            let top = (layers == PadLayers::Top) != flipped;
            let z = if top {
                stackup.top_mask()
            } else {
                stackup.bottom_mask()
            };
            push_prism(out, Role::Void, opening, z);
        },
    }
}

impl PinDef {
    /// The physical features of this pin's pad on a placed component: each copper region
    /// as a conductor on its layers, a mask opening where it is exposed, and the plated
    /// hole through the whole stackup. Empty without a pad.
    pub fn pad_features(&self, comp: &Component, stackup: &Stackup) -> (r: Vec<Feature>)
        requires
            pad_placeable(self@, comp@),
        ensures
            feature::feature_views(r@) == pad_features_of(self@, comp@, stackup@),
    {
        let mut out: Vec<Feature> = Vec::new();
        let ghost c = comp@;
        let ghost su = stackup@;
        assert(feature::feature_views(out@) =~= Seq::empty());
        let pad: &PadGeo = match &self.pad {
            Some(pad) => pad,
            None => {
                return out;
            },
        };
        let ghost copper = pad@.copper;
        assert(self@.pad == Some(pad@));
        let flipped = comp.orient.is_bottom();
        let mut i: usize = 0;
        while i < pad.copper.len()
            invariant
                i <= pad.copper.len(),
                c == comp@,
                su == stackup@,
                copper == pad@.copper,
                copper.len() == pad.copper.len(),
                flipped == (coord::upness(c.orient) < 0),
                forall|j: int| 0 <= j < copper.len() ==> copper_placeable(c, #[trigger] copper[j]),
                feature::feature_views(out@) == copper_features(c, copper, i as nat, su),
            decreases pad.copper.len() - i,
        {
            let cu = &pad.copper[i];
            assert(copper[i as int] == cu@);
            assert(copper_placeable(c, copper[i as int]));
            let world = pad_copper_world(comp, cu);
            let opening = world.inflated(MASK_EXPANSION);
            let ghost before = feature::feature_views(out@);
            push_conductors(&mut out, &world, cu.layers, flipped, stackup, Ghost(c), Ghost(cu@));
            push_openings(&mut out, &opening, cu.layers, flipped, stackup, Ghost(c), Ghost(cu@));
            i += 1;
        }
        let ghost done = feature::feature_views(out@);
        if let Some(drill) = &pad.drill {
            let local = match *drill {
                Drill::Round { d } => Shape2D::disc(self.offset, d / 2),
                Drill::Slot { a, b, d } => Shape2D::capsule(a, b, d / 2),
            };
            let world = shape_world(comp, &local);
            if let Some(z) = stackup.full_z() {
                let ghost seen = out@;
                let f = Feature::prism(Role::Void, world, z).with_material(
                    Material::named("copper"),
                );
                out.push(f);
                assert(feature::feature_views(out@) =~= feature::feature_views(seen).push(f@));
            }
        }
        assert(feature::feature_views(out@) =~= done + drill_features(
            c,
            pad@.drill,
            self@.offset,
            su,
        ));
        out
    }
}

// ---------------------------------------------------------------------------
// Sides.
// ---------------------------------------------------------------------------

/// Does `s` begin with `p`?
pub open spec fn begins(s: Seq<char>, p: Seq<char>) -> bool {
    s.len() >= p.len() && s.take(p.len() as int) == p
}

/// A slab name with its side prefix exchanged; a name without one is unchanged.
pub open spec fn other_side(layer: Seq<char>) -> Seq<char> {
    if begins(layer, "F."@) {
        "B."@ + layer.skip(2)
    } else if begins(layer, "B."@) {
        "F."@ + layer.skip(2)
    } else {
        layer
    }
}

/// Changing sides twice is no change.
pub proof fn other_side_is_an_involution(layer: Seq<char>)
    ensures
        other_side(other_side(layer)) == layer,
{
    reveal_strlit("F.");
    reveal_strlit("B.");
    let o = other_side(layer);
    if begins(layer, "F."@) {
        assert(o.take(2) =~= "B."@);
        assert(o[0] == 'B');
        assert(!begins(o, "F."@)) by {
            if begins(o, "F."@) {
                assert(o.take(2)[0] == 'F');
            }
        }
        assert(o.skip(2) =~= layer.skip(2));
        assert("F."@ + layer.skip(2) =~= layer) by {
            assert(layer.take(2)[0] == layer[0] && layer.take(2)[1] == layer[1]);
        }
    } else if begins(layer, "B."@) {
        assert(o.take(2) =~= "F."@);
        assert(o.skip(2) =~= layer.skip(2));
        assert("B."@ + layer.skip(2) =~= layer) by {
            assert(layer.take(2)[0] == layer[0] && layer.take(2)[1] == layer[1]);
        }
    }
}

/// Exchange a slab name's side prefix. Footprint geometry is authored on the top side; a
/// part on the bottom mirrors every layer to the other side.
pub fn swap_side(layer: &str) -> (r: String)
    ensures
        r@ == other_side(layer@),
{
    proof {
        reveal_strlit("F.");
        reveal_strlit("B.");
    }
    let cs = chars_of(layer);
    if cs.len() >= 2 {
        let head = slice_string(&cs, 0, 2);
        assert(head@ =~= layer@.take(2));
        if str_eq(head.as_str(), "F.") {
            let rest = slice_string(&cs, 2, cs.len());
            assert(rest@ =~= layer@.skip(2));
            return cat("B.", rest.as_str());
        }
        if str_eq(head.as_str(), "B.") {
            let rest = slice_string(&cs, 2, cs.len());
            assert(rest@ =~= layer@.skip(2));
            return cat("F.", rest.as_str());
        }
    }
    layer.to_owned()
}

/// The slab a layer name stands for on a placed component.
pub open spec fn layer_slab(c: ComponentV, layer: Seq<char>, su: Seq<SlabV>) -> Option<SlabV> {
    stackup::find_slab(
        su,
        if coord::upness(c.orient) < 0 {
            other_side(layer)
        } else {
            layer
        },
    )
}

/// The role and height of the slab a layer name stands for on a placed component.
fn resolve_layer(comp: &Component, layer: &String, stackup: &Stackup) -> (r: Option<
    (Role, ZRange),
>)
    ensures
        match (r, layer_slab(comp@, layer@, stackup@)) {
            (Some((role, z)), Some(s)) => role == s.role && z == s.z,
            (None, None) => true,
            _ => false,
        },
{
    let name = if comp.orient.is_bottom() {
        swap_side(layer.as_str())
    } else {
        layer.clone()
    };
    match stackup.slab(name.as_str()) {
        Some(s) => Some((s.role, s.z)),
        None => None,
    }
}

// ---------------------------------------------------------------------------
// Graphics.
// ---------------------------------------------------------------------------

/// The features of the first `k` graphics: each on the slab its layer stands for, with
/// that slab's role; a graphic whose slab is absent gives nothing.
pub open spec fn graphics_prefix(
    gs: Seq<GraphicV>,
    k: nat,
    c: ComponentV,
    su: Seq<SlabV>,
) -> Seq<FeatureV>
    decreases k,
{
    if k == 0 {
        Seq::empty()
    } else {
        let done = graphics_prefix(gs, (k - 1) as nat, c, su);
        match layer_slab(c, gs[k - 1].layer, su) {
            Some(s) => done.push(
                feature::prism_of(s.role, placed_shape(c, gs[k - 1].shape), s.z),
            ),
            None => done,
        }
    }
}

/// The physical features of a placed component's footprint graphics.
pub fn graphic_features(def: &PartDef, comp: &Component, stackup: &Stackup) -> (r: Vec<Feature>)
    requires
        forall|i: int|
            0 <= i < def@.graphics.len() ==> shape_placeable(
                comp@,
                (#[trigger] def@.graphics[i]).shape,
            ),
    ensures
        feature::feature_views(r@) == graphics_prefix(
            def@.graphics,
            def@.graphics.len(),
            comp@,
            stackup@,
        ),
{
    let mut out: Vec<Feature> = Vec::new();
    let ghost gs = def@.graphics;
    assert(feature::feature_views(out@) =~= Seq::empty());
    let mut i: usize = 0;
    while i < def.graphics.len()
        invariant
            i <= def.graphics.len(),
            gs == def@.graphics,
            gs.len() == def.graphics.len(),
            forall|j: int| 0 <= j < gs.len() ==> shape_placeable(comp@, (#[trigger] gs[j]).shape),
            feature::feature_views(out@) == graphics_prefix(gs, i as nat, comp@, stackup@),
        decreases def.graphics.len() - i,
    {
        let g: &FpGraphic = &def.graphics[i];
        assert(gs[i as int] == g@);
        if let Some((role, z)) = resolve_layer(comp, &g.layer, stackup) {
            let world = shape_world(comp, &g.shape);
            let ghost seen = out@;
            let f = Feature::prism(role, world, z);
            out.push(f);
            assert(feature::feature_views(out@) =~= feature::feature_views(seen).push(f@));
        }
        i += 1;
    }
    out
}

// ---------------------------------------------------------------------------
// Texts.
// ---------------------------------------------------------------------------

/// How a string is drawn, about its anchor: filled glyph shapes, or pen strokes.
#[derive(Debug, PartialEq, Eq)]
pub enum Ink {
    Regions(Vec<Shape2D>),
    Strokes(Vec<Vec<Point>>),
}

/// A drawn string as a value.
pub enum InkV {
    Regions(Seq<ShapeV>),
    Strokes(Seq<Seq<Point>>),
}

/// The values of a list of shapes.
pub open spec fn shape_views(v: Seq<Shape2D>) -> Seq<ShapeV> {
    Seq::new(v.len(), |i: int| v[i]@)
}

/// The values of a list of strokes.
pub open spec fn stroke_views(v: Seq<Vec<Point>>) -> Seq<Seq<Point>> {
    Seq::new(v.len(), |i: int| v[i]@)
}

impl View for Ink {
    type V = InkV;

    open spec fn view(&self) -> InkV {
        match self {
            Ink::Regions(v) => InkV::Regions(shape_views(v@)),
            Ink::Strokes(v) => InkV::Strokes(stroke_views(v@)),
        }
    }
}

/// A string of a font at a height, centred on its anchor.
#[derive(Debug, PartialEq, Eq)]
pub struct Letters {
    pub text: String,
    pub height: Nm,
    pub ink: Ink,
}

/// The drawn strings a board needs.
#[derive(Debug, PartialEq, Eq)]
pub struct Lettering {
    pub drawn: Vec<Letters>,
}

/// Drawn strings as values.
pub open spec fn letter_views(v: Seq<Letters>) -> Seq<(Seq<char>, Nm, InkV)> {
    Seq::new(v.len(), |i: int| (v[i].text@, v[i].height, v[i].ink@))
}

impl View for Lettering {
    type V = Seq<(Seq<char>, Nm, InkV)>;

    open spec fn view(&self) -> Seq<(Seq<char>, Nm, InkV)> {
        letter_views(self.drawn@)
    }
}

/// How a string is drawn at a height: the first entry for it.
pub open spec fn ink_of(v: Seq<(Seq<char>, Nm, InkV)>, s: Seq<char>, h: Nm) -> Option<InkV>
    decreases v.len(),
{
    if v.len() == 0 {
        None
    } else if v[0].0 == s && v[0].1 == h {
        Some(v[0].2)
    } else {
        ink_of(v.skip(1), s, h)
    }
}

impl Lettering {
    /// How `text` is drawn at `height`; `None` when there is no such drawing.
    pub fn ink(&self, text: &str, height: Nm) -> (r: Option<&Ink>)
        ensures
            match r {
                Some(i) => ink_of(self@, text@, height) == Some(i@),
                None => ink_of(self@, text@, height) is None,
            },
    {
        let ghost v = self@;
        let mut i: usize = 0;
        assert(v.skip(0) =~= v);
        while i < self.drawn.len()
            invariant
                i <= self.drawn.len(),
                v == self@,
                v.len() == self.drawn.len(),
                ink_of(v, text@, height) == ink_of(v.skip(i as int), text@, height),
            decreases self.drawn.len() - i,
        {
            let l = &self.drawn[i];
            proof {
                assert(v.skip(i as int)[0] == (l.text@, l.height, l.ink@));
                assert(v.skip(i as int).skip(1) =~= v.skip(i + 1));
            }
            if l.height == height && str_eq(l.text.as_str(), text) {
                return Some(&l.ink);
            }
            i += 1;
        }
        None
    }
}

/// What a text anchor shows.
pub open spec fn shown(k: TextKindV, refdes: Seq<char>, label: Seq<char>) -> Seq<char> {
    match k {
        TextKindV::Reference => refdes,
        TextKindV::Label => label,
        TextKindV::Literal(s) => s,
    }
}

/// The pen width of a text of height `h`: an eighth, at least one.
pub open spec fn pen_of(h: Nm) -> int {
    if h < 8 {
        1
    } else {
        h as int / 8
    }
}

/// A point of a drawn text about its anchor, in the frame of the component.
pub open spec fn anchored(t: TextV, p: Point) -> Point {
    let r = coord::turned(t.orient, p);
    Point { x: (r.x + t.at.x) as i64, y: (r.y + t.at.y) as i64 }
}

/// A point of a drawn text, in the world.
pub open spec fn text_placed(c: ComponentV, t: TextV, p: Point) -> Point {
    placed(c, anchored(t, p))
}

/// The point can be turned about the anchor and then placed.
pub open spec fn text_placeable(c: ComponentV, t: TextV, p: Point) -> bool {
    let r = coord::turned(t.orient, p);
    &&& limits::pt_exact(p)
    &&& i64::MIN <= r.x + t.at.x <= i64::MAX
    &&& i64::MIN <= r.y + t.at.y <= i64::MAX
    &&& placeable(c, anchored(t, p))
}

/// A glyph shape that can be placed.
pub open spec fn glyph_placeable(c: ComponentV, t: TextV, s: ShapeV) -> bool {
    &&& forall|p: Point| #[trigger]
        shape::defining_points(s).contains(p) ==> text_placeable(c, t, p)
    &&& s is Area ==> {
        &&& shape::shape_safe(s)
        &&& forall|p: Point| #[trigger]
            shape::defining_points(s).contains(p) ==> limits::pt_safe(text_placed(c, t, p))
    }
}

/// A stroke that can be placed.
pub open spec fn stroke_placeable(c: ComponentV, t: TextV, s: Seq<Point>) -> bool {
    &&& s.len() > 0
    &&& forall|i: int| 0 <= i < s.len() ==> text_placeable(c, t, #[trigger] s[i])
}

/// A drawing that can be placed.
pub open spec fn ink_placeable(c: ComponentV, t: TextV, ink: InkV) -> bool {
    match ink {
        InkV::Regions(v) => forall|i: int|
            0 <= i < v.len() ==> glyph_placeable(c, t, #[trigger] v[i]),
        InkV::Strokes(v) => forall|i: int|
            0 <= i < v.len() ==> stroke_placeable(c, t, #[trigger] v[i]),
    }
}

/// The shapes of a drawing in the world: glyphs as they are, strokes with the pen.
pub open spec fn ink_shapes(c: ComponentV, t: TextV, ink: InkV) -> Seq<ShapeV> {
    match ink {
        InkV::Regions(v) => Seq::new(
            v.len(),
            |i: int| shape::shape_map(v[i], |p: Point| text_placed(c, t, p)),
        ),
        InkV::Strokes(v) => Seq::new(
            v.len(),
            |i: int|
                shape::trace_of(
                    Seq::new(v[i].len(), |j: int| text_placed(c, t, v[i][j])),
                    pen_of(t.height),
                ),
        ),
    }
}

/// The features of one text anchor.
pub open spec fn one_text(
    t: TextV,
    c: ComponentV,
    su: Seq<SlabV>,
    refdes: Seq<char>,
    label: Seq<char>,
    font: Seq<(Seq<char>, Nm, InkV)>,
) -> Seq<FeatureV> {
    match (layer_slab(c, t.layer, su), ink_of(font, shown(t.kind, refdes, label), t.height)) {
        (Some(s), Some(ink)) if !t.hide => {
            let shapes = ink_shapes(c, t, ink);
            Seq::new(shapes.len(), |i: int| feature::prism_of(s.role, shapes[i], s.z))
        },
        _ => Seq::empty(),
    }
}

/// The features of the first `k` text anchors.
pub open spec fn texts_prefix(
    ts: Seq<TextV>,
    k: nat,
    c: ComponentV,
    su: Seq<SlabV>,
    refdes: Seq<char>,
    label: Seq<char>,
    font: Seq<(Seq<char>, Nm, InkV)>,
) -> Seq<FeatureV>
    decreases k,
{
    if k == 0 {
        Seq::empty()
    } else {
        texts_prefix(ts, (k - 1) as nat, c, su, refdes, label, font) + one_text(
            ts[k - 1],
            c,
            su,
            refdes,
            label,
            font,
        )
    }
}

/// The part's texts can be placed with the drawings at hand.
pub open spec fn texts_placeable(
    def: PartV,
    c: ComponentV,
    refdes: Seq<char>,
    label: Seq<char>,
    font: Seq<(Seq<char>, Nm, InkV)>,
) -> bool {
    forall|i: int|
        0 <= i < def.texts.len() && ink_of(
            font,
            shown(def.texts[i].kind, refdes, label),
            def.texts[i].height,
        ) is Some ==> ink_placeable(
            c,
            #[trigger] def.texts[i],
            ink_of(font, shown(def.texts[i].kind, refdes, label), def.texts[i].height)->0,
        )
}

fn text_point(comp: &Component, t: &FpText, p: Point) -> (r: Point)
    requires
        text_placeable(comp@, t@, p),
    ensures
        r == text_placed(comp@, t@, p),
{
    let r = t.orient.apply(p);
    to_world(comp, Point { x: r.x + t.at.x, y: r.y + t.at.y })
}

fn text_shapes(comp: &Component, t: &FpText, ink: &Ink) -> (r: Vec<Shape2D>)
    requires
        ink_placeable(comp@, t@, ink@),
    ensures
        shape_views(r@) == ink_shapes(comp@, t@, ink@),
{
    let mut out: Vec<Shape2D> = Vec::new();
    let ghost want = ink_shapes(comp@, t@, ink@);
    match ink {
        Ink::Regions(v) => {
            let ghost vs = shape_views(v@);
            let mut i: usize = 0;
            while i < v.len()
                invariant
                    i <= v.len(),
                    vs == shape_views(v@),
                    out.len() == i,
                    want == ink_shapes(comp@, t@, InkV::Regions(vs)),
                    ink_placeable(comp@, t@, InkV::Regions(vs)),
                    forall|j: int| 0 <= j < i ==> (#[trigger] out@[j])@ == want[j],
                decreases v.len() - i,
            {
                let g = &v[i];
                assert(vs[i as int] == g@);
                assert(glyph_placeable(comp@, t@, g@));
                let f = |p: Point| -> (q: Point)
                    requires
                        text_placeable(comp@, t@, p),
                    ensures
                        q == text_placed(comp@, t@, p),
                    { text_point(comp, t, p) };
                let s = g.map_points(f);
                proof {
                    shape::shape_mapped_is_map(
                        g@,
                        s@,
                        &f,
                        |p: Point| text_placed(comp@, t@, p),
                    );
                }
                out.push(s);
                i += 1;
            }
        },
        Ink::Strokes(v) => {
            let ghost vs = stroke_views(v@);
            let pen: Nm = if t.height < 8 {
                1
            } else {
                t.height / 8
            };
            let mut i: usize = 0;
            while i < v.len()
                invariant
                    i <= v.len(),
                    vs == stroke_views(v@),
                    out.len() == i,
                    pen == pen_of(t.height),
                    want == ink_shapes(comp@, t@, InkV::Strokes(vs)),
                    ink_placeable(comp@, t@, InkV::Strokes(vs)),
                    forall|j: int| 0 <= j < i ==> (#[trigger] out@[j])@ == want[j],
                decreases v.len() - i,
            {
                let stroke = &v[i];
                assert(vs[i as int] == stroke@);
                assert(stroke_placeable(comp@, t@, vs[i as int]));
                let mut world: Vec<Point> = Vec::new();
                let mut j: usize = 0;
                while j < stroke.len()
                    invariant
                        j <= stroke.len(),
                        stroke_placeable(comp@, t@, stroke@),
                        world.len() == j,
                        forall|k: int|
                            0 <= k < j ==> #[trigger] world@[k] == text_placed(
                                comp@,
                                t@,
                                stroke@[k],
                            ),
                    decreases stroke.len() - j,
                {
                    assert(text_placeable(comp@, t@, stroke@[j as int]));
                    world.push(text_point(comp, t, stroke[j]));
                    j += 1;
                }
                assert(world@ =~= Seq::new(
                    vs[i as int].len(),
                    |j: int| text_placed(comp@, t@, vs[i as int][j]),
                ));
                out.push(Shape2D::trace(world, pen));
                i += 1;
            }
        },
    }
    assert(shape_views(out@) =~= want);
    out
}

/// The physical features of a placed component's footprint texts. Each anchor shows the
/// reference designator, the label or its own string, drawn by `font` about its anchor,
/// and takes the placement and the side of a graphic. A hidden anchor, an absent slab or
/// a string the font has no drawing of gives nothing.
pub fn text_features(
    def: &PartDef,
    comp: &Component,
    stackup: &Stackup,
    refdes: &str,
    label: &str,
    font: &Lettering,
) -> (r: Vec<Feature>)
    requires
        texts_placeable(def@, comp@, refdes@, label@, font@),
    ensures
        feature::feature_views(r@) == texts_prefix(
            def@.texts,
            def@.texts.len(),
            comp@,
            stackup@,
            refdes@,
            label@,
            font@,
        ),
{
    let mut out: Vec<Feature> = Vec::new();
    let ghost ts = def@.texts;
    assert(feature::feature_views(out@) =~= Seq::empty());
    let mut i: usize = 0;
    while i < def.texts.len()
        invariant
            i <= def.texts.len(),
            ts == def@.texts,
            ts.len() == def.texts.len(),
            texts_placeable(def@, comp@, refdes@, label@, font@),
            feature::feature_views(out@) == texts_prefix(
                ts,
                i as nat,
                comp@,
                stackup@,
                refdes@,
                label@,
                font@,
            ),
        decreases def.texts.len() - i,
    {
        let t: &FpText = &def.texts[i];
        assert(ts[i as int] == t@);
        let ghost before = feature::feature_views(out@);
        let ghost want = one_text(t@, comp@, stackup@, refdes@, label@, font@);
        if !t.hide {
            let string: &str = match &t.kind {
                FpTextKind::Reference => refdes,
                FpTextKind::Label => label,
                FpTextKind::Literal(s) => s.as_str(),
            };
            assert(string@ == shown(t@.kind, refdes@, label@));
            if let Some((role, z)) = resolve_layer(comp, &t.layer, stackup) {
                if let Some(ink) = font.ink(string, t.height) {
                    assert(ink_placeable(comp@, ts[i as int], ink@));
                    let shapes = text_shapes(comp, t, ink);
                    assert(shape_views(shapes@).len() == shapes.len());
                    assert(before + want.take(0) =~= before);
                    let mut j: usize = 0;
                    while j < shapes.len()
                        invariant
                            j <= shapes.len(),
                            want.len() == shapes.len(),
                            forall|k: int|
                                0 <= k < want.len() ==> #[trigger] want[k] == feature::prism_of(
                                    role,
                                    shapes@[k]@,
                                    z,
                                ),
                            feature::feature_views(out@) == before + want.take(j as int),
                        decreases shapes.len() - j,
                    {
                        let ghost seen = out@;
                        let f = Feature::prism(role, shapes[j].clone(), z);
                        out.push(f);
                        assert(feature::feature_views(out@) =~= feature::feature_views(seen).push(
                            want[j as int],
                        ));
                        assert(before + want.take(j + 1) =~= (before + want.take(j as int)).push(
                            want[j as int],
                        ));
                        j += 1;
                    }
                    assert(want.take(j as int) =~= want);
                } else {
                    assert(before + want =~= before);
                }
            } else {
                assert(before + want =~= before);
            }
        } else {
            assert(before + want =~= before);
        }
        i += 1;
    }
    out
}

// ---------------------------------------------------------------------------
// Courtyards.
// ---------------------------------------------------------------------------

/// The copper regions of the first `k` pins, in order.
pub open spec fn copper_prefix(pins: Seq<PinV>, k: nat) -> Seq<CopperV>
    decreases k,
{
    if k == 0 {
        Seq::empty()
    } else {
        let done = copper_prefix(pins, (k - 1) as nat);
        match pins[k - 1].pad {
            Some(pad) => done + pad.copper,
            None => done,
        }
    }
}

/// The copper regions of a part.
pub open spec fn all_copper(p: PartV) -> Seq<CopperV> {
    copper_prefix(p.pins, p.pins.len())
}

/// The larger of two numbers.
pub open spec fn larger(a: int, b: int) -> int {
    if a < b {
        b
    } else {
        a
    }
}

/// The distance of a number from zero.
pub open spec fn size(a: int) -> int {
    if a < 0 {
        -a
    } else {
        a
    }
}

/// The half-extents, about the origin, of a box.
pub open spec fn box_reach(b: (Point, Point)) -> (int, int) {
    (
        larger(size(b.0.x as int), size(b.1.x as int)),
        larger(size(b.0.y as int), size(b.1.y as int)),
    )
}

/// The half-extents of a list of copper regions; `None` when none has an extent.
pub open spec fn reach(cs: Seq<CopperV>) -> Option<(int, int)>
    decreases cs.len(),
{
    if cs.len() == 0 {
        None
    } else {
        match (reach(cs.drop_last()), shape::bbox_of(cs.last().shape)) {
            (Some((x, y)), Some(b)) => Some(
                (larger(x, box_reach(b).0), larger(y, box_reach(b).1)),
            ),
            (None, Some(b)) => Some(box_reach(b)),
            (o, None) => o,
        }
    }
}

/// The half-extents of a part's courtyard: the box of an imported courtyard, else the box
/// of its copper and a margin, else nothing.
pub open spec fn extents(p: PartV) -> (int, int) {
    match p.courtyard {
        Some(s) if shape::bbox_of(s) is Some => box_reach(shape::bbox_of(s)->0),
        _ => match reach(all_copper(p)) {
            Some((x, y)) => (x + COURTYARD_MARGIN, y + COURTYARD_MARGIN),
            None => (0, 0),
        },
    }
}

/// The copper regions and the courtyard of a part can be measured.
pub open spec fn extents_known(p: PartV) -> bool {
    &&& forall|i: int|
        0 <= i < all_copper(p).len() ==> shape::measurable((#[trigger] all_copper(p)[i]).shape)
    &&& match p.courtyard {
        Some(s) => shape::measurable(s),
        None => true,
    }
}

/// Every copper region's box lies within the half-extents.
pub proof fn reach_covers_copper(cs: Seq<CopperV>, i: int)
    requires
        0 <= i < cs.len(),
        shape::bbox_of(cs[i].shape) is Some,
    ensures
        reach(cs) is Some,
        box_reach(shape::bbox_of(cs[i].shape)->0).0 <= (reach(cs)->0).0,
        box_reach(shape::bbox_of(cs[i].shape)->0).1 <= (reach(cs)->0).1,
    decreases cs.len(),
{
    if i < cs.len() - 1 {
        assert(cs.drop_last()[i] == cs[i]);
        reach_covers_copper(cs.drop_last(), i);
    }
}

/// A part without an imported courtyard keeps at least the margin around each copper
/// region's box.
pub proof fn courtyard_keeps_margin(p: PartV, i: int)
    requires
        p.courtyard is None,
        0 <= i < all_copper(p).len(),
        shape::bbox_of(all_copper(p)[i].shape) is Some,
    ensures
        box_reach(shape::bbox_of(all_copper(p)[i].shape)->0).0 + COURTYARD_MARGIN <= extents(p).0,
        box_reach(shape::bbox_of(all_copper(p)[i].shape)->0).1 + COURTYARD_MARGIN <= extents(p).1,
{
    reach_covers_copper(all_copper(p), i);
}

fn magnitude(a: Nm) -> (r: Nm)
    requires
        a > i64::MIN,
    ensures
        r == size(a as int),
{
    if a < 0 {
        -a
    } else {
        a
    }
}

fn most(a: Nm, b: Nm) -> (r: Nm)
    ensures
        r == larger(a as int, b as int),
{
    if a < b {
        b
    } else {
        a
    }
}

/// Each coordinate of a measurable shape's box is far from the integer limits.
proof fn box_is_small(s: ShapeV)
    requires
        shape::measurable(s),
        shape::bbox_of(s) is Some,
    ensures
        limits::all_exact(shape::skeleton(s)),
        box_reach(shape::bbox_of(s)->0).0 <= 2 * limits::KERNEL_SAFE_COORD,
        box_reach(shape::bbox_of(s)->0).1 <= 2 * limits::KERNEL_SAFE_COORD,
        -0x7fff_ffff_ffff_ffff <= (shape::bbox_of(s)->0).0.x,
        -0x7fff_ffff_ffff_ffff <= (shape::bbox_of(s)->0).0.y,
        -0x7fff_ffff_ffff_ffff <= (shape::bbox_of(s)->0).1.x,
        -0x7fff_ffff_ffff_ffff <= (shape::bbox_of(s)->0).1.y,
{
    let pts = shape::skeleton(s);
    shape::box_is_tight(pts, pts.len());
    assert(limits::pt_safe(pts[0]));
}

/// The copper regions of a part, in order.
fn copper_of_part(def: &PartDef) -> (r: Vec<&PadCopper>)
    ensures
        r.len() == all_copper(def@).len(),
        forall|i: int| 0 <= i < r.len() ==> (#[trigger] r@[i])@ == all_copper(def@)[i],
{
    let mut out: Vec<&PadCopper> = Vec::new();
    let ghost pins = def@.pins;
    let mut i: usize = 0;
    while i < def.pins.len()
        invariant
            i <= def.pins.len(),
            pins == def@.pins,
            pins.len() == def.pins.len(),
            out.len() == copper_prefix(pins, i as nat).len(),
            forall|j: int|
                0 <= j < out.len() ==> (#[trigger] out@[j])@ == copper_prefix(pins, i as nat)[j],
        decreases def.pins.len() - i,
    {
        let pin: &PinDef = &def.pins[i];
        assert(pins[i as int] == pin@);
        let ghost done = copper_prefix(pins, i as nat);
        if let Some(pad) = &pin.pad {
            let pad: &PadGeo = pad;
            let ghost cu = pad@.copper;
            assert(pins[i as int].pad == Some(pad@));
            let mut j: usize = 0;
            while j < pad.copper.len()
                invariant
                    j <= pad.copper.len(),
                    cu == pad@.copper,
                    cu.len() == pad.copper.len(),
                    out.len() == done.len() + j,
                    forall|k: int|
                        0 <= k < out.len() ==> (#[trigger] out@[k])@ == (done + cu)[k],
                decreases pad.copper.len() - j,
            {
                assert(cu[j as int] == pad.copper@[j as int]@);
                out.push(&pad.copper[j]);
                j += 1;
            }
        }
        i += 1;
    }
    out
}

/// A part's courtyard as half-extents about the origin, the keep-out that placement uses.
/// A part without copper and without an imported courtyard has none.
pub fn courtyard_half_extents(def: &PartDef) -> (r: (Nm, Nm))
    requires
        extents_known(def@),
    ensures
        (r.0 as int, r.1 as int) == extents(def@),
{
    if let Some(court) = &def.courtyard {
        proof {
            if shape::bbox_of(court@) is Some {
                box_is_small(court@);
            }
            assert(limits::all_exact(shape::skeleton(court@)));
        }
        if let Some((lo, hi)) = court.bbox() {
            return (
                most(magnitude(lo.x), magnitude(hi.x)),
                most(magnitude(lo.y), magnitude(hi.y)),
            );
        }
    }
    let copper = copper_of_part(def);
    let ghost cs = all_copper(def@);
    let mut mx: Nm = 0;
    let mut my: Nm = 0;
    let mut any = false;
    let mut i: usize = 0;
    assert(cs.take(0) =~= Seq::empty());
    while i < copper.len()
        invariant
            i <= copper.len(),
            cs == all_copper(def@),
            cs.len() == copper.len(),
            forall|j: int| 0 <= j < copper.len() ==> (#[trigger] copper@[j])@ == cs[j],
            extents_known(def@),
            0 <= mx <= 2 * limits::KERNEL_SAFE_COORD,
            0 <= my <= 2 * limits::KERNEL_SAFE_COORD,
            any == (reach(cs.take(i as int)) is Some),
            any ==> reach(cs.take(i as int)) == Some((mx as int, my as int)),
            !any ==> mx == 0 && my == 0,
        decreases copper.len() - i,
    {
        let cu = copper[i];
        proof {
            assert(cs.take(i + 1).drop_last() =~= cs.take(i as int));
            assert(cs.take(i + 1).last() == cs[i as int]);
            assert(shape::measurable(cs[i as int].shape));
            if shape::bbox_of(cu@.shape) is Some {
                box_is_small(cu@.shape);
            }
            assert(limits::all_exact(shape::skeleton(cu@.shape)));
        }
        if let Some((lo, hi)) = cu.shape.bbox() {
            mx = most(mx, most(magnitude(lo.x), magnitude(hi.x)));
            my = most(my, most(magnitude(lo.y), magnitude(hi.y)));
            any = true;
        }
        i += 1;
    }
    assert(cs.take(i as int) =~= cs);
    if !any {
        return (0, 0);
    }
    (mx + COURTYARD_MARGIN, my + COURTYARD_MARGIN)
}

/// The corner points of the first `k` copper regions.
pub open spec fn copper_corners(cs: Seq<CopperV>, k: nat) -> Seq<Point>
    decreases k,
{
    if k == 0 {
        Seq::empty()
    } else {
        copper_corners(cs, (k - 1) as nat) + shape::corner_points(cs[k - 1].shape)
    }
}

/// The corner points of a part's copper.
pub open spec fn part_corners(p: PartV) -> Seq<Point> {
    copper_corners(all_copper(p), all_copper(p).len())
}

/// A part's courtyard as a polygon: the imported one if there is one; else the convex
/// hull of its copper's corners grown by the margin; `None` when they span no area.
pub fn courtyard_shape(def: &PartDef) -> (r: Option<Shape2D>)
    requires
        def@.courtyard is None ==> limits::all_exact(part_corners(def@)),
    ensures
        match (def@.courtyard, r) {
            (Some(s), _) => r is Some && r->0@ == s,
            (None, Some(s)) => exists|h: Seq<Point>|
                {
                    &&& #[trigger] hull::is_hull(part_corners(def@), h)
                    &&& h.len() >= 3
                    &&& s@ == (ShapeV::Polygon {
                        path: path::polyline_of(h),
                        radius: COURTYARD_MARGIN,
                    })
                },
            (None, None) => exists|h: Seq<Point>| #[trigger]
                hull::is_hull(part_corners(def@), h) && h.len() < 3,
        },
{
    if let Some(court) = &def.courtyard {
        return Some(court.clone());
    }
    let copper = copper_of_part(def);
    let ghost cs = all_copper(def@);
    let mut pts: Vec<Point> = Vec::new();
    let mut i: usize = 0;
    while i < copper.len()
        invariant
            i <= copper.len(),
            cs == all_copper(def@),
            cs.len() == copper.len(),
            forall|j: int| 0 <= j < copper.len() ==> (#[trigger] copper@[j])@ == cs[j],
            pts@ == copper_corners(cs, i as nat),
        decreases copper.len() - i,
    {
        let mut more = copper[i].shape.points();
        pts.append(&mut more);
        i += 1;
    }
    if pts.len() == 0 {
        assert(hull::is_hull(part_corners(def@), Seq::<Point>::empty()));
        return None;
    }
    let h = convex_hull(&pts);
    if h.len() < 3 {
        return None;
    }
    Some(Shape2D::polygon_path(Path::polyline(h), COURTYARD_MARGIN))
}

/// A point of a shape's corners lies within the half-extents of its box.
proof fn corner_within_box(s: ShapeV, i: int)
    requires
        shape::measurable(s),
        shape::radius_of(s) >= 0,
        0 <= i < shape::corner_points(s).len(),
    ensures
        shape::bbox_of(s) is Some,
        size(shape::corner_points(s)[i].x as int) <= box_reach(shape::bbox_of(s)->0).0,
        size(shape::corner_points(s)[i].y as int) <= box_reach(shape::bbox_of(s)->0).1,
{
    let pts = shape::skeleton(s);
    let c = shape::corner_points(s)[i];
    assert(pts.contains(c)) by {
        match s {
            ShapeV::Area { rings } => {},
            _ => path::flat_keeps_corners(
                shape::path_of(s),
                limits::DEFAULT_CHORD_TOL as int,
                i,
            ),
        }
    }
    let j = choose|j: int| 0 <= j < pts.len() && pts[j] == c;
    shape::box_is_tight(pts, pts.len());
    box_is_small(s);
    assert(limits::pt_safe(pts[j]));
}

proof fn corner_of_some_copper(cs: Seq<CopperV>, k: nat, q: Point)
    requires
        k <= cs.len(),
        copper_corners(cs, k).contains(q),
    ensures
        exists|j: int, i: int|
            0 <= j < k && 0 <= i < shape::corner_points(cs[j].shape).len()
                && #[trigger] shape::corner_points(cs[j].shape)[i] == q,
    decreases k,
{
    if k > 0 {
        let done = copper_corners(cs, (k - 1) as nat);
        let more = shape::corner_points(cs[k - 1].shape);
        let n = choose|n: int| 0 <= n < (done + more).len() && (done + more)[n] == q;
        if n < done.len() {
            assert(done[n] == q);
            corner_of_some_copper(cs, (k - 1) as nat, q);
        } else {
            assert(shape::corner_points(cs[k - 1].shape)[n - done.len()] == q);
        }
    }
}

/// The polygonal courtyard lies within the rectangular one: every corner of the hull of a
/// part's copper, with the margin, is within the half-extents.
pub proof fn hull_lies_within_the_extents(p: PartV, h: Seq<Point>, i: int)
    requires
        p.courtyard is None,
        extents_known(p),
        forall|j: int|
            0 <= j < all_copper(p).len() ==> shape::radius_of(
                (#[trigger] all_copper(p)[j]).shape,
            ) >= 0,
        hull::is_hull(part_corners(p), h),
        0 <= i < h.len(),
    ensures
        size(h[i].x as int) + COURTYARD_MARGIN <= extents(p).0,
        size(h[i].y as int) + COURTYARD_MARGIN <= extents(p).1,
{
    let cs = all_copper(p);
    let q = h[i];
    let m = choose|m: int| #[trigger] hull::hull_with_top(part_corners(p), h, m);
    assert(part_corners(p).contains(q));
    corner_of_some_copper(cs, cs.len(), q);
    let (j, n) = choose|j: int, n: int|
        0 <= j < cs.len() && 0 <= n < shape::corner_points(cs[j].shape).len()
            && #[trigger] shape::corner_points(cs[j].shape)[n] == q;
    corner_within_box(cs[j].shape, n);
    courtyard_keeps_margin(p, j);
}

} // verus!
