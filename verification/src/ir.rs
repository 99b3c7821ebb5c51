//! The directives of a generative board program, and what they contribute: coordinates to
//! be range-checked, and references to instances.

use crate::coord::{Nm, Orient, Point};
use crate::geom::path;
use crate::geom::shape;
use crate::geom::shape::{Shape2D, ShapeV};
use crate::geom::stackup::{Role, Slab};
use crate::names::NameMap;
use crate::text;
use crate::text::cat3;
use vstd::prelude::*;

verus! {

/// A directive with the block it opened: its header tokens, its tail, and its body.
#[derive(Debug, PartialEq, Eq)]
pub struct Block {
    pub keyword: String,
    pub tokens: Vec<String>,
    pub rest: String,
    pub opened_block: bool,
    pub children: Vec<Node>,
    pub line: u32,
}

/// An entry of a block body: a directive, a comment, or a blank line.
#[derive(Debug, PartialEq, Eq)]
pub enum Node {
    Block(Block),
    Comment(String),
    Blank,
}

/// An authored filled region: a pour with its net, a keep-out, or a void, on a slab.
#[derive(Debug, PartialEq, Eq)]
pub struct RegionDecl {
    pub shape: Shape2D,
    pub role: Role,
    pub net: Option<String>,
    pub layer: String,
}

/// A region as a value.
#[verifier::ext_equal]
pub struct RegionV {
    pub shape: ShapeV,
    pub role: Role,
    pub net: Option<Seq<char>>,
    pub layer: Seq<char>,
}

impl View for RegionDecl {
    type V = RegionV;

    open spec fn view(&self) -> RegionV {
        RegionV {
            shape: self.shape@,
            role: self.role,
            net: text::opt_str(self.net),
            layer: self.layer@,
        }
    }
}

/// The values of a list of regions.
pub open spec fn region_views(v: Seq<RegionDecl>) -> Seq<RegionV> {
    Seq::new(v.len(), |i: int| v[i]@)
}

/// The conventions of a component class: the prefix of its reference designators, the
/// template of its label, and its default parameters.
#[derive(Debug, PartialEq, Eq)]
pub struct ClassEntry {
    pub prefix: Option<String>,
    pub template: Option<String>,
    pub defaults: NameMap<String>,
}

/// The pin that a port of a definition exposes: an instance path and a selector.
#[derive(Debug, PartialEq, Eq)]
pub struct PortBinding {
    pub path: String,
    pub selector: String,
}

/// A directive of the generative program.
#[derive(Debug, PartialEq, Eq)]
pub enum GenDirective {
    /// An instance of a part.
    Instance { path: String, part: String, params: NameMap<String>, label: Option<String> },
    /// A named value, by its expression.
    Param { name: String, expr: String },
    /// A reusable sub-circuit with parameters, a body, ports and an optional layout text.
    Def {
        name: String,
        params: Vec<(String, String)>,
        body: Vec<DefNode>,
        ports: NameMap<PortBinding>,
        layout: Option<String>,
    },
    /// An instance with expressions, a range, or a condition.
    InstGenerative {
        path: String,
        part: String,
        params: NameMap<String>,
        param_exprs: NameMap<String>,
        label: Option<String>,
        range: Option<(String, String)>,
        if_expr: Option<String>,
    },
    /// A default placement.
    Place { path: String, pos: Point },
    /// A hard placement.
    Fix { path: String, pos: Point },
    /// The board outline; the last one wins.
    Board { outline: Shape2D },
    /// A cutout of the board.
    Cutout { shape: Shape2D },
    /// A hole without plating.
    Hole { center: Point, dia: Nm },
    /// A filled region.
    Region(RegionDecl),
    /// A slab of the stackup.
    Slab(Slab),
    /// A component class.
    Class { name: String, entry: ClassEntry },
    /// Two instances within a distance.
    Near { a: String, b: String, within: Nm },
    /// Two instances apart by a gap.
    MinSep { a: String, b: String, gap: Nm },
    /// Instances in a column.
    AlignX { nodes: Vec<String> },
    /// Instances in a row.
    AlignY { nodes: Vec<String> },
    /// Two interface ports mated, each an instance path and a port name.
    ConnectInterface { a: (String, String), b: (String, String) },
    /// Pins on a net, each an instance path and a selector.
    ConnectPins { net: String, pins: Vec<(String, String)> },
    /// Pins that stay unconnected.
    NoConnect { pins: Vec<(String, String)> },
    /// An orientation.
    Rotate { path: String, orient: Orient },
    /// An instance within a distance of a pin.
    NearPin { a: String, b_comp: String, b_pin: String, within: Nm },
    /// Board text.
    Text { string: String, at: Point, height: Nm, layer: String, orient: Orient },
    /// The font file of all text.
    Font { path: String },
}

/// The generative program.
pub type Source = Vec<GenDirective>;

/// An entry of a definition's body: a directive, a comment, or a blank line.
#[derive(Debug, PartialEq, Eq)]
pub enum DefNode {
    Directive(GenDirective),
    Comment(String),
    Blank,
}

/// The most instances that one range may expand to.
pub const MAX_RANGE_INSTANCES: i64 = 10_000;

// ---------------------------------------------------------------------------
// Coordinates.
// ---------------------------------------------------------------------------

/// The components of points, in order.
pub open spec fn components(pts: Seq<Point>) -> Seq<Nm>
    decreases pts.len(),
{
    if pts.len() == 0 {
        Seq::empty()
    } else {
        components(pts.drop_last()) + seq![pts.last().x, pts.last().y]
    }
}

/// The coordinates and lengths that a directive contributes. An orientation is no
/// coordinate.
pub open spec fn coords_of(d: GenDirective) -> Seq<Nm> {
    match d {
        GenDirective::Place { pos, .. } => seq![pos.x, pos.y],
        GenDirective::Fix { pos, .. } => seq![pos.x, pos.y],
        GenDirective::Board { outline } => components(shape::defining_points(outline@)),
        GenDirective::Cutout { shape } => components(shape::defining_points(shape@)),
        GenDirective::Region(r) => components(shape::defining_points(r.shape@)),
        GenDirective::Hole { center, dia } => seq![center.x, center.y, dia],
        GenDirective::Text { at, height, .. } => seq![at.x, at.y, height],
        GenDirective::Near { within, .. } => seq![within],
        GenDirective::NearPin { within, .. } => seq![within],
        GenDirective::MinSep { gap, .. } => seq![gap],
        GenDirective::Slab(s) => seq![s.z.lo, s.z.hi],
        _ => Seq::empty(),
    }
}

/// Both components of every point are among the components.
pub proof fn components_hold_points(pts: Seq<Point>, i: int)
    requires
        0 <= i < pts.len(),
    ensures
        components(pts).contains(pts[i].x),
        components(pts).contains(pts[i].y),
        components(pts).len() == 2 * pts.len(),
    decreases pts.len(),
{
    let t = pts.drop_last();
    let c = components(pts);
    components_count(t);
    if i < t.len() {
        components_hold_points(t, i);
        let a = choose|a: int| 0 <= a < components(t).len() && components(t)[a] == t[i].x;
        let b = choose|b: int| 0 <= b < components(t).len() && components(t)[b] == t[i].y;
        assert(c[a] == pts[i].x);
        assert(c[b] == pts[i].y);
    } else {
        assert(c[c.len() - 2] == pts[i].x);
        assert(c[c.len() - 1] == pts[i].y);
    }
}

proof fn components_count(pts: Seq<Point>)
    ensures
        components(pts).len() == 2 * pts.len(),
    decreases pts.len(),
{
    if pts.len() > 0 {
        components_count(pts.drop_last());
    }
}

fn shape_coords(s: &Shape2D) -> (r: Vec<Nm>)
    ensures
        r@ == components(shape::defining_points(s@)),
{
    let pts = s.coords();
    let mut out: Vec<Nm> = Vec::new();
    let mut i: usize = 0;
    assert(pts@.take(0) =~= Seq::empty());
    while i < pts.len()
        invariant
            i <= pts.len(),
            out@ == components(pts@.take(i as int)),
        decreases pts.len() - i,
    {
        proof {
            let t = pts@.take(i + 1);
            assert(t.drop_last() =~= pts@.take(i as int));
            assert(t.last() == pts@[i as int]);
        }
        let ghost before = out@;
        out.push(pts[i].x);
        out.push(pts[i].y);
        assert(out@ =~= before + seq![pts@[i as int].x, pts@[i as int].y]);
        i += 1;
    }
    assert(pts@.take(i as int) =~= pts@);
    out
}

fn list_of(v: Vec<Nm>, Ghost(want): Ghost<Seq<Nm>>) -> (r: Vec<Nm>)
    requires
        v@ =~= want,
    ensures
        r@ == want,
{
    v
}

// ---------------------------------------------------------------------------
// References.
// ---------------------------------------------------------------------------

/// A context and the path it refers to.
pub open spec fn context(what: Seq<char>, path: Seq<char>) -> (Seq<char>, Seq<char>) {
    (what + " `"@ + path + "`"@, path)
}

/// The context of each path, in order.
pub open spec fn contexts(what: Seq<char>, paths: Seq<String>) -> Seq<(Seq<char>, Seq<char>)> {
    Seq::new(paths.len(), |i: int| context(what, paths[i]@))
}

/// One context for the component path of each pin.
pub open spec fn pin_contexts(what: Seq<char>, pins: Seq<(String, String)>) -> Seq<
    (Seq<char>, Seq<char>),
> {
    Seq::new(pins.len(), |i: int| (what, pins[i].0@))
}

/// The instance paths that a directive refers to, each with its context.
pub open spec fn refs_of(d: GenDirective) -> Seq<(Seq<char>, Seq<char>)> {
    match d {
        GenDirective::Place { path, .. } => seq![context("place"@, path@)],
        GenDirective::Fix { path, .. } => seq![context("fix"@, path@)],
        GenDirective::Rotate { path, .. } => seq![context("rotate"@, path@)],
        GenDirective::Near { a, b, .. } => seq![context("near"@, a@), context("near"@, b@)],
        GenDirective::MinSep { a, b, .. } => seq![
            context("minsep"@, a@),
            context("minsep"@, b@),
        ],
        GenDirective::NearPin { a, b_comp, .. } => seq![
            context("nearpin"@, a@),
            context("nearpin"@, b_comp@),
        ],
        GenDirective::AlignX { nodes } => contexts("alignx"@, nodes@),
        GenDirective::AlignY { nodes } => contexts("aligny"@, nodes@),
        GenDirective::ConnectInterface { a, b } => seq![
            context("connect"@, a.0@),
            context("connect"@, b.0@),
        ],
        GenDirective::ConnectPins { net, pins } => pin_contexts(
            "net `"@ + net@ + "`"@,
            pins@,
        ),
        GenDirective::NoConnect { pins } => pin_contexts("no-connect"@, pins@),
        _ => Seq::empty(),
    }
}

fn one_context(what: &str, path: &String) -> (r: (String, String))
    ensures
        (r.0@, r.1@) == context(what@, path@),
{
    let head = cat3(what, " `", path.as_str());
    (text::cat(head.as_str(), "`"), path.clone())
}

fn two_contexts(what: &str, a: &String, b: &String) -> (r: Vec<(String, String)>)
    ensures
        text::str_pairs(r@) == seq![context(what@, a@), context(what@, b@)],
{
    let mut out: Vec<(String, String)> = Vec::new();
    out.push(one_context(what, a));
    out.push(one_context(what, b));
    assert(text::str_pairs(out@) =~= seq![context(what@, a@), context(what@, b@)]);
    out
}

fn single_context(what: &str, a: &String) -> (r: Vec<(String, String)>)
    ensures
        text::str_pairs(r@) == seq![context(what@, a@)],
{
    let mut out: Vec<(String, String)> = Vec::new();
    out.push(one_context(what, a));
    assert(text::str_pairs(out@) =~= seq![context(what@, a@)]);
    out
}

fn all_contexts(what: &str, paths: &Vec<String>) -> (r: Vec<(String, String)>)
    ensures
        text::str_pairs(r@) == contexts(what@, paths@),
{
    let mut out: Vec<(String, String)> = Vec::new();
    let mut i: usize = 0;
    while i < paths.len()
        invariant
            i <= paths.len(),
            out.len() == i,
            forall|k: int|
                0 <= k < i ==> ((#[trigger] out@[k]).0@, out@[k].1@) == context(
                    what@,
                    paths@[k]@,
                ),
        decreases paths.len() - i,
    {
        out.push(one_context(what, &paths[i]));
        i += 1;
    }
    assert(text::str_pairs(out@) =~= contexts(what@, paths@));
    out
}

fn all_pins(what: &str, pins: &Vec<(String, String)>) -> (r: Vec<(String, String)>)
    ensures
        text::str_pairs(r@) == pin_contexts(what@, pins@),
{
    let mut out: Vec<(String, String)> = Vec::new();
    let mut i: usize = 0;
    while i < pins.len()
        invariant
            i <= pins.len(),
            out.len() == i,
            forall|k: int|
                0 <= k < i ==> (#[trigger] out@[k]).0@ == what@ && out@[k].1@ == pins@[k].0@,
        decreases pins.len() - i,
    {
        out.push((what.to_owned(), pins[i].0.clone()));
        i += 1;
    }
    assert(text::str_pairs(out@) =~= pin_contexts(what@, pins@));
    out
}

impl GenDirective {
    /// The coordinates and lengths that this directive contributes, for range checks.
    pub fn coords(&self) -> (r: Vec<Nm>)
        ensures
            r@ == coords_of(*self),
    {
        let ghost want = coords_of(*self);
        match self {
            GenDirective::Place { pos, .. } => list_of(vec![pos.x, pos.y], Ghost(want)),
            GenDirective::Fix { pos, .. } => list_of(vec![pos.x, pos.y], Ghost(want)),
            GenDirective::Board { outline } => shape_coords(outline),
            GenDirective::Cutout { shape } => shape_coords(shape),
            GenDirective::Region(r) => shape_coords(&r.shape),
            GenDirective::Hole { center, dia } => list_of(
                vec![center.x, center.y, *dia],
                Ghost(want),
            ),
            GenDirective::Text { at, height, .. } => list_of(
                vec![at.x, at.y, *height],
                Ghost(want),
            ),
            GenDirective::Near { within, .. } => list_of(vec![*within], Ghost(want)),
            GenDirective::NearPin { within, .. } => list_of(vec![*within], Ghost(want)),
            GenDirective::MinSep { gap, .. } => list_of(vec![*gap], Ghost(want)),
            GenDirective::Slab(s) => list_of(vec![s.z.lo, s.z.hi], Ghost(want)),
            _ => {
                let none: Vec<Nm> = Vec::new();
                list_of(none, Ghost(want))
            },
        }
    }

    /// The instance paths that this directive refers to, each with its context.
    pub fn refs(&self) -> (r: Vec<(String, String)>)
        ensures
            text::str_pairs(r@) == refs_of(*self),
    {
        match self {
            GenDirective::Place { path, .. } => single_context("place", path),
            GenDirective::Fix { path, .. } => single_context("fix", path),
            GenDirective::Rotate { path, .. } => single_context("rotate", path),
            GenDirective::Near { a, b, .. } => two_contexts("near", a, b),
            GenDirective::MinSep { a, b, .. } => two_contexts("minsep", a, b),
            GenDirective::NearPin { a, b_comp, .. } => two_contexts("nearpin", a, b_comp),
            GenDirective::AlignX { nodes } => all_contexts("alignx", nodes),
            GenDirective::AlignY { nodes } => all_contexts("aligny", nodes),
            GenDirective::ConnectInterface { a, b } => two_contexts("connect", &a.0, &b.0),
            GenDirective::ConnectPins { net, pins } => {
                let what = cat3("net `", net.as_str(), "`");
                all_pins(what.as_str(), pins)
            },
            GenDirective::NoConnect { pins } => all_pins("no-connect", pins),
            _ => {
                let none: Vec<(String, String)> = Vec::new();
                assert(text::str_pairs(none@) =~= Seq::empty());
                none
            },
        }
    }
}

/// The coordinates and lengths that a directive contributes.
pub fn directive_coords(d: &GenDirective) -> (r: Vec<Nm>)
    ensures
        r@ == coords_of(*d),
{
    d.coords()
}

/// The instance paths that a directive refers to.
pub fn directive_refs(d: &GenDirective) -> (r: Vec<(String, String)>)
    ensures
        text::str_pairs(r@) == refs_of(*d),
{
    d.refs()
}

/// The corners of the box between two opposite corners.
pub open spec fn box_corners(min: Point, max: Point) -> Seq<Point> {
    seq![min, Point { x: max.x, y: min.y }, max, Point { x: min.x, y: max.y }]
}

/// A rectangular board between two opposite corners.
pub fn board_rect(min: Point, max: Point) -> (r: GenDirective)
    ensures
        r matches GenDirective::Board { outline } && outline@ == shape::polygon_of(
            box_corners(min, max),
        ),
{
    let corners = vec![min, Point { x: max.x, y: min.y }, max, Point { x: min.x, y: max.y }];
    assert(corners@ =~= box_corners(min, max));
    GenDirective::Board { outline: Shape2D::polygon(corners) }
}

/// A board of even width and height is the rectangle of that size about its centre.
pub proof fn board_rect_is_the_rectangle(min: Point, max: Point)
    requires
        (max.x - min.x) % 2 == 0,
        (max.y - min.y) % 2 == 0,
    ensures
        ({
            let c = Point {
                x: ((min.x + max.x) / 2) as i64,
                y: ((min.y + max.y) / 2) as i64,
            };
            shape::polygon_of(box_corners(min, max)) == shape::rect_of(
                c,
                max.x - min.x,
                max.y - min.y,
            )
        }),
{
    let c = Point { x: ((min.x + max.x) / 2) as i64, y: ((min.y + max.y) / 2) as i64 };
    assert(shape::rect_corners(c, path::half(max.x - min.x), path::half(max.y - min.y))
        =~= box_corners(min, max));
}

} // verus!
