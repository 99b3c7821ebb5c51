//! Parts: typed pins and typed interfaces. A connection between two devices is made at
//! the interface level, and the interface type itself says how two instances mate, so a
//! serial link cannot be wired backwards.

use crate::coord::{Nm, Orient, Point};
use crate::geom::shape::{Shape2D, ShapeV};
use crate::names;
use crate::names::{Duplicate, NameMap};
use crate::text;
use crate::text::{chars_of, clone_pairs, position_of, slice_string, str_eq};
use vstd::prelude::*;

pub mod appearance;
pub mod geometry;
pub mod library;
pub mod placement;

verus! {

/// Which copper layers a pad occupies.
#[derive(Clone, Copy, Debug, PartialEq, Eq, Structural)]
pub enum PadLayers {
    Top,
    Bottom,
    Through,
}

/// A drilled hole, in component-local coordinates: round, or a slot between two points.
#[derive(Clone, Copy, Debug, PartialEq, Eq, Structural)]
pub enum Drill {
    Round { d: Nm },
    Slot { a: Point, b: Point, d: Nm },
}

/// One copper region of a pad, in component-local coordinates.
#[derive(Debug, PartialEq, Eq)]
pub struct PadCopper {
    pub shape: Shape2D,
    pub layers: PadLayers,
}

/// A copper region as a value.
#[verifier::ext_equal]
pub struct CopperV {
    pub shape: ShapeV,
    pub layers: PadLayers,
}

impl View for PadCopper {
    type V = CopperV;

    open spec fn view(&self) -> CopperV {
        CopperV { shape: self.shape@, layers: self.layers }
    }
}

impl Duplicate for PadCopper {
    fn duplicate(&self) -> (r: PadCopper) {
        PadCopper { shape: self.shape.clone(), layers: self.layers }
    }
}

/// The copper and drill geometry of a pad: a union of copper regions and an optional
/// hole.
#[derive(Debug, PartialEq, Eq)]
pub struct PadGeo {
    pub copper: Vec<PadCopper>,
    pub drill: Option<Drill>,
}

/// A pad as a value.
#[verifier::ext_equal]
pub struct PadV {
    pub copper: Seq<CopperV>,
    pub drill: Option<Drill>,
}

/// The values of a list of copper regions.
pub open spec fn copper_views(v: Seq<PadCopper>) -> Seq<CopperV> {
    Seq::new(v.len(), |i: int| v[i]@)
}

impl View for PadGeo {
    type V = PadV;

    open spec fn view(&self) -> PadV {
        PadV { copper: copper_views(self.copper@), drill: self.drill }
    }
}

impl Duplicate for PadGeo {
    fn duplicate(&self) -> (r: PadGeo) {
        let mut copper: Vec<PadCopper> = Vec::new();
        let mut i: usize = 0;
        while i < self.copper.len()
            invariant
                i <= self.copper.len(),
                copper.len() == i,
                forall|j: int| 0 <= j < i ==> copper@[j]@ == self.copper@[j]@,
            decreases self.copper.len() - i,
        {
            copper.push(self.copper[i].duplicate());
            i += 1;
        }
        let r = PadGeo { copper, drill: self.drill };
        assert(r@.copper =~= self@.copper);
        r
    }
}

/// An optional pad as a value.
pub open spec fn opt_pad(o: Option<PadGeo>) -> Option<PadV> {
    match o {
        Some(p) => Some(p@),
        None => None,
    }
}

pub fn clone_pad(o: &Option<PadGeo>) -> (r: Option<PadGeo>)
    ensures
        opt_pad(r) == opt_pad(*o),
{
    match o {
        Some(p) => Some(p.duplicate()),
        None => None,
    }
}

/// A footprint graphic, in component-local coordinates, on a side-relative slab.
#[derive(Debug, PartialEq, Eq)]
pub struct FpGraphic {
    pub shape: Shape2D,
    pub layer: String,
}

/// A graphic as a value.
#[verifier::ext_equal]
pub struct GraphicV {
    pub shape: ShapeV,
    pub layer: Seq<char>,
}

impl View for FpGraphic {
    type V = GraphicV;

    open spec fn view(&self) -> GraphicV {
        GraphicV { shape: self.shape@, layer: self.layer@ }
    }
}

impl Duplicate for FpGraphic {
    fn duplicate(&self) -> (r: FpGraphic) {
        FpGraphic { shape: self.shape.clone(), layer: self.layer.clone() }
    }
}

/// The values of a list of graphics.
pub open spec fn graphic_views(v: Seq<FpGraphic>) -> Seq<GraphicV> {
    Seq::new(v.len(), |i: int| v[i]@)
}

pub fn clone_graphics(v: &Vec<FpGraphic>) -> (r: Vec<FpGraphic>)
    ensures
        graphic_views(r@) == graphic_views(v@),
{
    let mut out: Vec<FpGraphic> = Vec::new();
    let mut i: usize = 0;
    while i < v.len()
        invariant
            i <= v.len(),
            out.len() == i,
            forall|j: int| 0 <= j < i ==> out@[j]@ == v@[j]@,
        decreases v.len() - i,
    {
        out.push(v[i].duplicate());
        i += 1;
    }
    assert(graphic_views(out@) =~= graphic_views(v@));
    out
}

/// What a footprint text shows: the reference designator, the label, or itself.
#[derive(Debug, PartialEq, Eq)]
pub enum FpTextKind {
    Reference,
    Label,
    Literal(String),
}

/// A text kind as a value.
pub enum TextKindV {
    Reference,
    Label,
    Literal(Seq<char>),
}

impl View for FpTextKind {
    type V = TextKindV;

    open spec fn view(&self) -> TextKindV {
        match self {
            FpTextKind::Reference => TextKindV::Reference,
            FpTextKind::Label => TextKindV::Label,
            FpTextKind::Literal(s) => TextKindV::Literal(s@),
        }
    }
}

/// A footprint text anchor, in component-local coordinates.
#[derive(Debug, PartialEq, Eq)]
pub struct FpText {
    pub kind: FpTextKind,
    pub at: Point,
    pub height: Nm,
    pub layer: String,
    pub orient: Orient,
    pub hide: bool,
}

/// A text anchor as a value.
#[verifier::ext_equal]
pub struct TextV {
    pub kind: TextKindV,
    pub at: Point,
    pub height: Nm,
    pub layer: Seq<char>,
    pub orient: Orient,
    pub hide: bool,
}

impl View for FpText {
    type V = TextV;

    open spec fn view(&self) -> TextV {
        TextV {
            kind: self.kind@,
            at: self.at,
            height: self.height,
            layer: self.layer@,
            orient: self.orient,
            hide: self.hide,
        }
    }
}

impl Duplicate for FpText {
    fn duplicate(&self) -> (r: FpText) {
        FpText {
            kind: match &self.kind {
                FpTextKind::Reference => FpTextKind::Reference,
                FpTextKind::Label => FpTextKind::Label,
                FpTextKind::Literal(s) => FpTextKind::Literal(s.clone()),
            },
            at: self.at,
            height: self.height,
            layer: self.layer.clone(),
            orient: self.orient,
            hide: self.hide,
        }
    }
}

/// The values of a list of text anchors.
pub open spec fn text_views(v: Seq<FpText>) -> Seq<TextV> {
    Seq::new(v.len(), |i: int| v[i]@)
}

pub fn clone_texts(v: &Vec<FpText>) -> (r: Vec<FpText>)
    ensures
        text_views(r@) == text_views(v@),
{
    let mut out: Vec<FpText> = Vec::new();
    let mut i: usize = 0;
    while i < v.len()
        invariant
            i <= v.len(),
            out.len() == i,
            forall|j: int| 0 <= j < i ==> out@[j]@ == v@[j]@,
        decreases v.len() - i,
    {
        out.push(v[i].duplicate());
        i += 1;
    }
    assert(text_views(out@) =~= text_views(v@));
    out
}

/// Signal direction.
#[derive(Clone, Copy, Debug, PartialEq, Eq, Structural)]
pub enum Dir {
    Out,
    In,
    Bidir,
}

impl View for Dir {
    type V = Dir;

    open spec fn view(&self) -> Dir {
        *self
    }
}

impl Duplicate for Dir {
    fn duplicate(&self) -> (r: Dir) {
        *self
    }
}

/// Electrical role of a pin.
#[derive(Clone, Copy, Debug, PartialEq, Eq, PartialOrd, Ord, Structural)]
pub enum PinRole {
    PowerIn,
    PowerOut,
    Output,
    Input,
    Bidir,
    Passive,
}

/// Does a role drive a net?
pub open spec fn drives(r: PinRole) -> bool {
    r == PinRole::PowerOut || r == PinRole::Output
}

/// The role of an interface signal.
pub open spec fn dir_role(d: Dir) -> PinRole {
    match d {
        Dir::Out => PinRole::Output,
        Dir::In => PinRole::Input,
        Dir::Bidir => PinRole::Bidir,
    }
}

impl PinRole {
    /// Does this role actively drive a net?
    pub fn is_driver(self) -> (r: bool)
        ensures
            r == drives(self),
    {
        match self {
            PinRole::PowerOut => true,
            PinRole::Output => true,
            _ => false,
        }
    }

    /// The role of a signal of direction `d`.
    pub fn from_dir(d: Dir) -> (r: PinRole)
        ensures
            r == dir_role(d),
    {
        match d {
            Dir::Out => PinRole::Output,
            Dir::In => PinRole::Input,
            Dir::Bidir => PinRole::Bidir,
        }
    }
}

/// A discrete pin: its functional name, its pad number (the stored identity), its role,
/// its local offset and its pad, if it has one.
#[derive(Debug, PartialEq, Eq)]
pub struct PinDef {
    pub name: String,
    pub number: String,
    pub role: PinRole,
    pub offset: Point,
    pub pad: Option<PadGeo>,
}

/// A pin as a value.
#[verifier::ext_equal]
pub struct PinV {
    pub name: Seq<char>,
    pub number: Seq<char>,
    pub role: PinRole,
    pub offset: Point,
    pub pad: Option<PadV>,
}

impl View for PinDef {
    type V = PinV;

    open spec fn view(&self) -> PinV {
        PinV {
            name: self.name@,
            number: self.number@,
            role: self.role,
            offset: self.offset,
            pad: opt_pad(self.pad),
        }
    }
}

/// The values of a list of pins.
pub open spec fn pin_views(v: Seq<PinDef>) -> Seq<PinV> {
    Seq::new(v.len(), |i: int| v[i]@)
}

/// A typed interface: signals with directions and local positions, and how two instances
/// mate, as pairs of a signal on one side and a signal on the other.
#[derive(Debug, PartialEq, Eq)]
pub struct InterfaceDef {
    pub kind: String,
    pub signals: NameMap<Dir>,
    pub offsets: NameMap<Point>,
    pub mate: Vec<(String, String)>,
}

/// An interface as a value.
#[verifier::ext_equal]
pub struct IfaceV {
    pub kind: Seq<char>,
    pub signals: Seq<(Seq<char>, Dir)>,
    pub offsets: Seq<(Seq<char>, Point)>,
    pub mate: Seq<(Seq<char>, Seq<char>)>,
}

impl View for InterfaceDef {
    type V = IfaceV;

    open spec fn view(&self) -> IfaceV {
        IfaceV {
            kind: self.kind@,
            signals: self.signals@,
            offsets: self.offsets@,
            mate: text::str_pairs(self.mate@),
        }
    }
}

impl Duplicate for InterfaceDef {
    fn duplicate(&self) -> (r: InterfaceDef) {
        InterfaceDef {
            kind: self.kind.clone(),
            signals: self.signals.duplicate(),
            offsets: self.offsets.duplicate(),
            mate: clone_pairs(&self.mate),
        }
    }
}

/// A part: discrete pins, named interface ports, graphics, texts and a courtyard.
#[derive(Debug, PartialEq, Eq)]
pub struct PartDef {
    pub name: String,
    pub pins: Vec<PinDef>,
    pub interfaces: NameMap<InterfaceDef>,
    pub graphics: Vec<FpGraphic>,
    pub texts: Vec<FpText>,
    pub courtyard: Option<Shape2D>,
    pub class: Option<String>,
}

/// A part as a value.
#[verifier::ext_equal]
pub struct PartV {
    pub name: Seq<char>,
    pub pins: Seq<PinV>,
    pub interfaces: Seq<(Seq<char>, IfaceV)>,
    pub graphics: Seq<GraphicV>,
    pub texts: Seq<TextV>,
    pub courtyard: Option<ShapeV>,
    pub class: Option<Seq<char>>,
}

/// An optional shape as a value.
pub open spec fn opt_shape(o: Option<Shape2D>) -> Option<ShapeV> {
    match o {
        Some(s) => Some(s@),
        None => None,
    }
}

pub fn clone_opt_shape(o: &Option<Shape2D>) -> (r: Option<Shape2D>)
    ensures
        opt_shape(r) == opt_shape(*o),
{
    match o {
        Some(s) => Some(s.clone()),
        None => None,
    }
}

impl View for PartDef {
    type V = PartV;

    open spec fn view(&self) -> PartV {
        PartV {
            name: self.name@,
            pins: pin_views(self.pins@),
            interfaces: self.interfaces@,
            graphics: graphic_views(self.graphics@),
            texts: text_views(self.texts@),
            courtyard: opt_shape(self.courtyard),
            class: text::opt_str(self.class),
        }
    }
}

/// The part library: parts by name.
pub type PartLib = NameMap<PartDef>;

// ---------------------------------------------------------------------------
// Pin identities and selectors.
// ---------------------------------------------------------------------------

/// The position of the first pin numbered `n`, or the length.
pub open spec fn pin_index(pins: Seq<PinV>, n: Seq<char>) -> int
    decreases pins.len(),
{
    if pins.len() == 0 {
        0
    } else if pins[0].number == n {
        0
    } else {
        1 + pin_index(pins.skip(1), n)
    }
}

/// `pin_index` is the first pin of that number, or the length.
pub proof fn pin_index_is_first(pins: Seq<PinV>, n: Seq<char>)
    ensures
        0 <= pin_index(pins, n) <= pins.len(),
        pin_index(pins, n) < pins.len() ==> pins[pin_index(pins, n)].number == n,
        forall|i: int| 0 <= i < pin_index(pins, n) ==> (#[trigger] pins[i]).number != n,
    decreases pins.len(),
{
    if pins.len() > 0 && pins[0].number != n {
        pin_index_is_first(pins.skip(1), n);
        assert forall|i: int| 0 <= i < pin_index(pins, n) implies (#[trigger] pins[i]).number
            != n by {
            if i > 0 {
                assert(pins.skip(1)[i - 1] == pins[i]);
            }
        }
    }
}

/// The pin numbered `n`.
pub open spec fn find_pin(pins: Seq<PinV>, n: Seq<char>) -> Option<PinV> {
    if pin_index(pins, n) < pins.len() {
        Some(pins[pin_index(pins, n)])
    } else {
        None
    }
}

/// The two halves of an interface signal's identity, `port.signal`, split at the first
/// dot; `None` when there is no dot.
pub open spec fn split_dot(id: Seq<char>) -> Option<(Seq<char>, Seq<char>)> {
    let i = text::find_char(id, '.');
    if i < id.len() {
        Some((id.take(i), id.skip(i + 1)))
    } else {
        None
    }
}

/// The role of a stored pin identity.
pub open spec fn role_of(p: PartV, id: Seq<char>) -> Option<PinRole> {
    match split_dot(id) {
        Some((port, sig)) => match names::lookup(p.interfaces, port) {
            Some(iface) => match names::lookup(iface.signals, sig) {
                Some(d) => Some(dir_role(d)),
                None => None,
            },
            None => None,
        },
        None => match find_pin(p.pins, id) {
            Some(pin) => Some(pin.role),
            None => None,
        },
    }
}

/// The local offset of a stored pin identity.
pub open spec fn offset_of(p: PartV, id: Seq<char>) -> Option<Point> {
    match split_dot(id) {
        Some((port, sig)) => match names::lookup(p.interfaces, port) {
            Some(iface) => names::lookup(iface.offsets, sig),
            None => None,
        },
        None => match find_pin(p.pins, id) {
            Some(pin) => Some(pin.offset),
            None => None,
        },
    }
}

/// The numbers of the pins named `sel`, in order.
pub open spec fn numbers_named(pins: Seq<PinV>, sel: Seq<char>) -> Seq<Seq<char>>
    decreases pins.len(),
{
    if pins.len() == 0 {
        Seq::empty()
    } else if pins.last().name == sel {
        numbers_named(pins.drop_last(), sel).push(pins.last().number)
    } else {
        numbers_named(pins.drop_last(), sel)
    }
}

/// The numbers of the pins numbered `sel`, in order.
pub open spec fn numbers_equal(pins: Seq<PinV>, sel: Seq<char>) -> Seq<Seq<char>>
    decreases pins.len(),
{
    if pins.len() == 0 {
        Seq::empty()
    } else if pins.last().number == sel {
        numbers_equal(pins.drop_last(), sel).push(pins.last().number)
    } else {
        numbers_equal(pins.drop_last(), sel)
    }
}

/// The identities a selector names: an interface signal, every pad of a functional name,
/// or failing that the pads of that number.
pub open spec fn selected(p: PartV, sel: Seq<char>) -> Seq<Seq<char>> {
    match split_dot(sel) {
        Some((port, sig)) => match names::lookup(p.interfaces, port) {
            Some(iface) => if names::has(iface.signals, sig) {
                seq![sel]
            } else {
                Seq::empty()
            },
            None => Seq::empty(),
        },
        None => {
            let by_name = numbers_named(p.pins, sel);
            if by_name.len() > 0 {
                by_name
            } else {
                numbers_equal(p.pins, sel)
            }
        },
    }
}

/// The halves of `port.signal`, or `None` without a dot.
pub fn split_at_dot(id: &str) -> (r: Option<(String, String)>)
    ensures
        match r {
            Some((a, b)) => split_dot(id@) == Some((a@, b@)),
            None => split_dot(id@) is None,
        },
{
    let cs = chars_of(id);
    let i = position_of(&cs, '.');
    if i < cs.len() {
        let a = slice_string(&cs, 0, i);
        let b = slice_string(&cs, i + 1, cs.len());
        assert(a@ =~= id@.take(i as int));
        assert(b@ =~= id@.skip(i + 1));
        Some((a, b))
    } else {
        None
    }
}

/// Every selected identity resolves: a selector never names something the part does not
/// have.
pub proof fn selection_resolves(p: PartV, sel: Seq<char>, i: int)
    requires
        0 <= i < selected(p, sel).len(),
        forall|k: int|
            0 <= k < p.pins.len() ==> split_dot((#[trigger] p.pins[k]).number) is None,
    ensures
        role_of(p, selected(p, sel)[i]) is Some,
{
    match split_dot(sel) {
        Some((port, sig)) => {},
        None => {
            named_numbers_exist(p.pins, sel);
            let n = selected(p, sel)[i];
            let k = choose|k: int| 0 <= k < p.pins.len() && #[trigger] p.pins[k].number == n;
            pin_index_is_first(p.pins, n);
        },
    }
}

proof fn named_numbers_exist(pins: Seq<PinV>, sel: Seq<char>)
    ensures
        forall|i: int|
            0 <= i < numbers_named(pins, sel).len() ==> exists|k: int|
                0 <= k < pins.len() && #[trigger] pins[k].number == #[trigger] numbers_named(
                    pins,
                    sel,
                )[i],
        forall|i: int|
            0 <= i < numbers_equal(pins, sel).len() ==> exists|k: int|
                0 <= k < pins.len() && #[trigger] pins[k].number == #[trigger] numbers_equal(
                    pins,
                    sel,
                )[i],
    decreases pins.len(),
{
    if pins.len() > 0 {
        let t = pins.drop_last();
        named_numbers_exist(t, sel);
        assert forall|i: int| 0 <= i < numbers_named(pins, sel).len() implies exists|k: int|
            0 <= k < pins.len() && #[trigger] pins[k].number == #[trigger] numbers_named(
                pins,
                sel,
            )[i] by {
            if i < numbers_named(t, sel).len() {
                let k = choose|k: int|
                    0 <= k < t.len() && #[trigger] t[k].number == numbers_named(t, sel)[i];
                assert(pins[k].number == numbers_named(pins, sel)[i]);
            } else {
                assert(pins[pins.len() - 1].number == numbers_named(pins, sel)[i]);
            }
        }
        assert forall|i: int| 0 <= i < numbers_equal(pins, sel).len() implies exists|k: int|
            0 <= k < pins.len() && #[trigger] pins[k].number == #[trigger] numbers_equal(
                pins,
                sel,
            )[i] by {
            if i < numbers_equal(t, sel).len() {
                let k = choose|k: int|
                    0 <= k < t.len() && #[trigger] t[k].number == numbers_equal(t, sel)[i];
                assert(pins[k].number == numbers_equal(pins, sel)[i]);
            } else {
                assert(pins[pins.len() - 1].number == numbers_equal(pins, sel)[i]);
            }
        }
    }
}

impl PartDef {
    /// The pin numbered `n`.
    pub fn pin_numbered(&self, n: &str) -> (r: Option<&PinDef>)
        ensures
            match r {
                Some(p) => find_pin(self@.pins, n@) == Some(p@),
                None => find_pin(self@.pins, n@) is None,
            },
    {
        let ghost s = self@.pins;
        let mut i: usize = 0;
        proof {
            pin_index_is_first(s, n@);
        }
        while i < self.pins.len()
            invariant
                s == self@.pins,
                i <= pin_index(s, n@) <= s.len(),
                s.len() == self.pins.len(),
                pin_index(s, n@) < s.len() ==> s[pin_index(s, n@)].number == n@,
                forall|j: int| 0 <= j < pin_index(s, n@) ==> (#[trigger] s[j]).number != n@,
            decreases self.pins.len() - i,
        {
            assert(s[i as int] == self.pins@[i as int]@);
            if str_eq(self.pins[i].number.as_str(), n) {
                return Some(&self.pins[i]);
            }
            i += 1;
        }
        None
    }

    /// The role of a stored pin identity: a pad number, or `port.signal`.
    pub fn pin_role(&self, id: &str) -> (r: Option<PinRole>)
        ensures
            r == role_of(self@, id@),
    {
        match split_at_dot(id) {
            Some((port, sig)) => match self.interfaces.get(port.as_str()) {
                Some(iface) => match iface.signals.get(sig.as_str()) {
                    Some(d) => Some(PinRole::from_dir(*d)),
                    None => None,
                },
                None => None,
            },
            None => match self.pin_numbered(id) {
                Some(p) => Some(p.role),
                None => None,
            },
        }
    }

    /// The local offset of a stored pin identity.
    pub fn pin_offset(&self, id: &str) -> (r: Option<Point>)
        ensures
            r == offset_of(self@, id@),
    {
        match split_at_dot(id) {
            Some((port, sig)) => match self.interfaces.get(port.as_str()) {
                Some(iface) => match iface.offsets.get(sig.as_str()) {
                    Some(p) => Some(*p),
                    None => None,
                },
                None => None,
            },
            None => match self.pin_numbered(id) {
                Some(p) => Some(p.offset),
                None => None,
            },
        }
    }

    /// The identities a selector names. Empty means it names nothing here, which a caller
    /// must treat as an error.
    pub fn resolve_selector(&self, sel: &str) -> (r: Vec<String>)
        ensures
            text::strs(r@) == selected(self@, sel@),
    {
        let mut out: Vec<String> = Vec::new();
        assert(text::strs(out@) =~= Seq::empty());
        if let Some((port, sig)) = split_at_dot(sel) {
            if let Some(iface) = self.interfaces.get(port.as_str()) {
                if iface.signals.contains_key(sig.as_str()) {
                    out.push(sel.to_owned());
                    assert(text::strs(out@) =~= seq![sel@]);
                }
            }
            return out;
        }
        let ghost s = self@.pins;
        let mut by_number: Vec<String> = Vec::new();
        let mut i: usize = 0;
        assert(text::strs(out@) =~= numbers_named(s.take(0), sel@));
        assert(text::strs(by_number@) =~= numbers_equal(s.take(0), sel@));
        while i < self.pins.len()
            invariant
                i <= self.pins.len(),
                s == self@.pins,
                text::strs(out@) == numbers_named(s.take(i as int), sel@),
                text::strs(by_number@) == numbers_equal(s.take(i as int), sel@),
            decreases self.pins.len() - i,
        {
            let p = &self.pins[i];
            proof {
                assert(s[i as int] == p@);
                let t = s.take(i + 1);
                assert(t.drop_last() =~= s.take(i as int));
                assert(t.last() == s[i as int]);
            }
            if str_eq(p.name.as_str(), sel) {
                let ghost before = text::strs(out@);
                out.push(p.number.clone());
                assert(text::strs(out@) =~= before.push(p@.number));
            }
            if str_eq(p.number.as_str(), sel) {
                let ghost before = text::strs(by_number@);
                by_number.push(p.number.clone());
                assert(text::strs(by_number@) =~= before.push(p@.number));
            }
            i += 1;
        }
        assert(s.take(i as int) =~= s);
        assert(text::strs(out@).len() == out.len());
        if out.len() > 0 {
            out
        } else {
            by_number
        }
    }
}

} // verus!
