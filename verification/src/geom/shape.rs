//! One shape: a skeleton inflated by a radius, or a filled area with holes.

use super::limits;
use super::limits::DEFAULT_CHORD_TOL;
use super::path;
use super::path::{Path, PathV, Seg};
use super::polygon;
use super::polygon::{point_in_polygon, signed_area2, Region};
use crate::coord::{Nm, Point};
use vstd::prelude::*;

verus! {

/// A 2D region: a skeleton inflated by a disc of `radius`, or oriented rings.
#[derive(Debug, PartialEq, Eq)]
pub enum Shape2D {
    /// An open path inflated by `radius`: a point is a disc, one edge a capsule, many a
    /// trace of width `2·radius`.
    Stroke { path: Path, radius: Nm },
    /// A filled simple polygon, corners rounded by `radius`.
    Polygon { path: Path, radius: Nm },
    /// A filled area with holes; its rings are the boundary.
    Area { region: Region },
}

/// A shape as a value.
#[verifier::ext_equal]
pub enum ShapeV {
    Stroke { path: PathV, radius: Nm },
    Polygon { path: PathV, radius: Nm },
    Area { rings: Seq<Seq<Point>> },
}

impl View for Shape2D {
    type V = ShapeV;

    open spec fn view(&self) -> ShapeV {
        match self {
            Shape2D::Stroke { path, radius } => ShapeV::Stroke { path: path@, radius: *radius },
            Shape2D::Polygon { path, radius } => ShapeV::Polygon { path: path@, radius: *radius },
            Shape2D::Area { region } => ShapeV::Area { rings: region@ },
        }
    }
}

impl Clone for Shape2D {
    fn clone(&self) -> (r: Shape2D)
        ensures
            r@ == self@,
    {
        match self {
            Shape2D::Stroke { path, radius } => Shape2D::Stroke {
                path: path.clone(),
                radius: *radius,
            },
            Shape2D::Polygon { path, radius } => Shape2D::Polygon {
                path: path.clone(),
                radius: *radius,
            },
            Shape2D::Area { region } => Shape2D::Area { region: region.clone() },
        }
    }
}

// ---------------------------------------------------------------------------
// What a shape is.
// ---------------------------------------------------------------------------

/// The inflation radius; an area has none.
pub open spec fn radius_of(s: ShapeV) -> int {
    match s {
        ShapeV::Stroke { radius, .. } => radius as int,
        ShapeV::Polygon { radius, .. } => radius as int,
        ShapeV::Area { .. } => 0,
    }
}

/// The skeleton path of a stroke or polygon.
pub open spec fn path_of(s: ShapeV) -> PathV {
    match s {
        ShapeV::Stroke { path, .. } => path,
        ShapeV::Polygon { path, .. } => path,
        ShapeV::Area { .. } => arbitrary(),
    }
}

/// The flattened skeleton: the path as a polyline, or an area's vertices.
pub open spec fn skeleton(s: ShapeV) -> Seq<Point> {
    match s {
        ShapeV::Area { rings } => polygon::vertices(rings),
        _ => path::flat(path_of(s), DEFAULT_CHORD_TOL as int),
    }
}

/// The corner vertices.
pub open spec fn corner_points(s: ShapeV) -> Seq<Point> {
    match s {
        ShapeV::Area { rings } => polygon::vertices(rings),
        _ => path::corners_of(path_of(s)),
    }
}

/// Every lattice point the shape is defined by.
pub open spec fn defining_points(s: ShapeV) -> Seq<Point> {
    match s {
        ShapeV::Area { rings } => polygon::vertices(rings),
        _ => path::defining_of(path_of(s)),
    }
}

/// Every point the shape is defined by is kernel-safe.
pub open spec fn shape_safe(s: ShapeV) -> bool {
    match s {
        ShapeV::Area { rings } => polygon::rings_safe(rings),
        _ => path::path_safe(path_of(s)),
    }
}

/// Kernel-safe after flattening too: what exact measurements on the shape need. Only an
/// arc can leave the range its defining points keep.
pub open spec fn measurable(s: ShapeV) -> bool {
    &&& shape_safe(s)
    &&& limits::all_safe(skeleton(s))
    &&& limits::in_kernel(radius_of(s))
}

/// Consecutive points as edges; a lone point is one degenerate edge.
pub open spec fn open_edges(pts: Seq<Point>) -> Seq<(Point, Point)> {
    if pts.len() == 1 {
        seq![(pts[0], pts[0])]
    } else {
        Seq::new((pts.len() - 1) as nat, |i: int| (pts[i], pts[i + 1]))
    }
}

/// The edges of a closed ring.
pub open spec fn closed_edges(pts: Seq<Point>) -> Seq<(Point, Point)> {
    Seq::new(pts.len(), |i: int| (pts[i], pts[polygon::next(i, pts.len() as int)]))
}

/// The edges of the first `k` rings, leaving out rings of fewer than two points.
pub open spec fn ring_edges(rings: Seq<Seq<Point>>, k: nat) -> Seq<(Point, Point)>
    decreases k,
{
    if k == 0 {
        Seq::empty()
    } else if rings[k - 1].len() >= 2 {
        ring_edges(rings, (k - 1) as nat) + closed_edges(rings[k - 1])
    } else {
        ring_edges(rings, (k - 1) as nat)
    }
}

/// The skeleton's straight edges.
pub open spec fn edges(s: ShapeV) -> Seq<(Point, Point)> {
    match s {
        ShapeV::Stroke { .. } => open_edges(skeleton(s)),
        ShapeV::Polygon { .. } => closed_edges(skeleton(s)),
        ShapeV::Area { rings } => ring_edges(rings, rings.len()),
    }
}

/// Is `p` in the shape's filled area? A stroke has none.
pub open spec fn area_has(s: ShapeV, p: Point) -> bool {
    match s {
        ShapeV::Stroke { .. } => false,
        ShapeV::Polygon { .. } => polygon::in_polygon(p, skeleton(s)),
        ShapeV::Area { rings } => polygon::in_region(p, rings),
    }
}

/// The smallest box around the first `k ≥ 1` points, as its two corners.
pub open spec fn box_prefix(pts: Seq<Point>, k: nat) -> (Point, Point)
    decreases k,
{
    if k <= 1 {
        (pts[0], pts[0])
    } else {
        let (lo, hi) = box_prefix(pts, (k - 1) as nat);
        let p = pts[k - 1];
        (
            Point {
                x: if p.x < lo.x {
                    p.x
                } else {
                    lo.x
                },
                y: if p.y < lo.y {
                    p.y
                } else {
                    lo.y
                },
            },
            Point {
                x: if p.x > hi.x {
                    p.x
                } else {
                    hi.x
                },
                y: if p.y > hi.y {
                    p.y
                } else {
                    hi.y
                },
            },
        )
    }
}

/// The bounding box of the skeleton grown by the radius; `None` for a shape without
/// points.
pub open spec fn bbox_of(s: ShapeV) -> Option<(Point, Point)> {
    let pts = skeleton(s);
    if pts.len() == 0 {
        None
    } else {
        let (lo, hi) = box_prefix(pts, pts.len());
        let r = radius_of(s);
        Some(
            (
                Point { x: (lo.x - r) as i64, y: (lo.y - r) as i64 },
                Point { x: (hi.x + r) as i64, y: (hi.y + r) as i64 },
            ),
        )
    }
}

/// The shape with its radius changed by `d`, never below zero; an area is unchanged.
pub open spec fn inflate(s: ShapeV, d: int) -> ShapeV {
    match s {
        ShapeV::Stroke { path, radius } => ShapeV::Stroke {
            path,
            radius: (if radius + d < 0 {
                0
            } else {
                radius + d
            }) as i64,
        },
        ShapeV::Polygon { path, radius } => ShapeV::Polygon {
            path,
            radius: (if radius + d < 0 {
                0
            } else {
                radius + d
            }) as i64,
        },
        ShapeV::Area { rings } => ShapeV::Area { rings },
    }
}

/// A mapped ring, turned round when the map flipped its winding.
pub open spec fn rewound(before: Seq<Point>, mapped: Seq<Point>) -> Seq<Point> {
    let after = polygon::area2(mapped);
    if after != 0 && (polygon::area2(before) > 0) != (after > 0) {
        mapped.reverse()
    } else {
        mapped
    }
}

/// The shape with every defining point mapped; each ring of an area keeps the winding it
/// had.
pub open spec fn shape_map(s: ShapeV, g: spec_fn(Point) -> Point) -> ShapeV {
    match s {
        ShapeV::Stroke { path, radius } => ShapeV::Stroke { path: path::path_map(path, g), radius },
        ShapeV::Polygon { path, radius } => ShapeV::Polygon {
            path: path::path_map(path, g),
            radius,
        },
        ShapeV::Area { rings } => ShapeV::Area {
            rings: Seq::new(
                rings.len(),
                |i: int| rewound(rings[i], rings[i].map_values(g)),
            ),
        },
    }
}

/// `m` is the ring `ring` sent point by point through `f`.
pub open spec fn ring_image<F: Fn(Point) -> Point>(ring: Seq<Point>, m: Seq<Point>, f: &F) -> bool {
    &&& m.len() == ring.len()
    &&& forall|i: int| 0 <= i < ring.len() ==> call_ensures(f, (ring[i],), #[trigger] m[i])
}

/// `out` is `ring` sent through `f` and rewound.
pub open spec fn ring_mapped<F: Fn(Point) -> Point>(
    ring: Seq<Point>,
    out: Seq<Point>,
    f: &F,
) -> bool {
    exists|m: Seq<Point>| #[trigger] ring_image(ring, m, f) && out == rewound(ring, m)
}

/// `r` is `s` sent through the executable map `f`.
pub open spec fn shape_mapped<F: Fn(Point) -> Point>(s: ShapeV, r: ShapeV, f: &F) -> bool {
    match (s, r) {
        (ShapeV::Stroke { path, radius }, ShapeV::Stroke { path: q, radius: d }) => radius == d
            && path::path_mapped(path, q, f),
        (ShapeV::Polygon { path, radius }, ShapeV::Polygon { path: q, radius: d }) => radius == d
            && path::path_mapped(path, q, f),
        (ShapeV::Area { rings }, ShapeV::Area { rings: out }) => {
            &&& out.len() == rings.len()
            &&& forall|i: int|
                0 <= i < rings.len() ==> ring_mapped(rings[i], #[trigger] out[i], f)
        },
        _ => false,
    }
}

// ---------------------------------------------------------------------------
// Laws.
// ---------------------------------------------------------------------------

/// A map that always computes `g` gives the shape mapped by `g`.
pub proof fn shape_mapped_is_map<F: Fn(Point) -> Point>(
    s: ShapeV,
    r: ShapeV,
    f: &F,
    g: spec_fn(Point) -> Point,
)
    requires
        shape_mapped(s, r, f),
        forall|a: Point, b: Point| call_ensures(f, (a,), b) ==> b == g(a),
    ensures
        r == shape_map(s, g),
{
    match (s, r) {
        (ShapeV::Stroke { path, radius }, ShapeV::Stroke { path: q, radius: d }) => {
            path::path_mapped_is_map(path, q, f, g);
        },
        (ShapeV::Polygon { path, radius }, ShapeV::Polygon { path: q, radius: d }) => {
            path::path_mapped_is_map(path, q, f, g);
        },
        (ShapeV::Area { rings }, ShapeV::Area { rings: out }) => {
            let want = shape_map(s, g)->Area_rings;
            assert forall|i: int| 0 <= i < rings.len() implies out[i] == want[i] by {
                assert(ring_mapped(rings[i], out[i], f));
                let m = choose|m: Seq<Point>|
                    #[trigger] ring_image(rings[i], m, f) && out[i] == rewound(rings[i], m);
                assert(m =~= rings[i].map_values(g));
            }
            assert(out =~= want);
        },
        _ => {},
    }
}

/// Mapping an area never turns an island into a hole: each ring's signed area keeps its
/// sign, unless the map flattens the ring to nothing.
pub proof fn map_keeps_winding(ring: Seq<Point>, mapped: Seq<Point>)
    requires
        polygon::area2(mapped) != 0,
    ensures
        (polygon::area2(rewound(ring, mapped)) > 0) == (polygon::area2(ring) > 0),
{
    polygon::reversed_ring_has_opposite_area(mapped);
}

/// The box holds every one of its points, and no smaller box does: each side is touched.
pub proof fn box_is_tight(pts: Seq<Point>, k: nat)
    requires
        1 <= k <= pts.len(),
    ensures
        ({
            let (lo, hi) = box_prefix(pts, k);
            &&& forall|i: int|
                0 <= i < k ==> lo.x <= (#[trigger] pts[i]).x <= hi.x && lo.y <= pts[i].y <= hi.y
            &&& exists|i: int| 0 <= i < k && (#[trigger] pts[i]).x == lo.x
            &&& exists|i: int| 0 <= i < k && (#[trigger] pts[i]).x == hi.x
            &&& exists|i: int| 0 <= i < k && (#[trigger] pts[i]).y == lo.y
            &&& exists|i: int| 0 <= i < k && (#[trigger] pts[i]).y == hi.y
        }),
    decreases k,
{
    if k > 1 {
        box_is_tight(pts, (k - 1) as nat);
        let p = pts[k - 1];
    } else {
        let p = pts[0];
    }
}

/// Inflating twice is inflating once by the sum, as long as neither step deflates.
pub proof fn inflations_add(s: ShapeV, d: int, e: int)
    requires
        d >= 0,
        e >= 0,
        0 <= radius_of(s),
        radius_of(s) + d + e <= i64::MAX,
    ensures
        inflate(inflate(s, d), e) == inflate(s, d + e),
{
}

// ---------------------------------------------------------------------------
// Constructors.
// ---------------------------------------------------------------------------

/// The four corners of an axis-aligned rectangle with half-sizes `hw` and `hh`,
/// counter-clockwise from the lower left.
pub open spec fn rect_corners(c: Point, hw: int, hh: int) -> Seq<Point> {
    seq![
        Point { x: (c.x - hw) as i64, y: (c.y - hh) as i64 },
        Point { x: (c.x + hw) as i64, y: (c.y - hh) as i64 },
        Point { x: (c.x + hw) as i64, y: (c.y + hh) as i64 },
        Point { x: (c.x - hw) as i64, y: (c.y + hh) as i64 },
    ]
}

/// Do the rectangle's corners fit the coordinate type?
pub open spec fn rect_fits(c: Point, hw: int, hh: int) -> bool {
    &&& i64::MIN <= c.x - hw <= i64::MAX
    &&& i64::MIN <= c.x + hw <= i64::MAX
    &&& i64::MIN <= c.y - hh <= i64::MAX
    &&& i64::MIN <= c.y + hh <= i64::MAX
}

/// The corner radius a rounded rectangle uses: `r` held to `[0, min(w, h)/2]`.
pub open spec fn corner_radius(w: int, h: int, r: int) -> int {
    let most = path::half(if w < h {
        w
    } else {
        h
    });
    if r < 0 {
        0
    } else if r > most {
        most
    } else {
        r
    }
}

/// A disc.
pub open spec fn disc_of(c: Point, radius: int) -> ShapeV {
    ShapeV::Stroke { path: PathV { start: c, segs: Seq::empty() }, radius: radius as i64 }
}

/// A capsule.
pub open spec fn capsule_of(a: Point, b: Point, radius: int) -> ShapeV {
    ShapeV::Stroke {
        path: PathV { start: a, segs: seq![Seg::Line { end: b }] },
        radius: radius as i64,
    }
}

/// A polyline stroke.
pub open spec fn trace_of(points: Seq<Point>, width: int) -> ShapeV {
    ShapeV::Stroke { path: path::polyline_of(points), radius: path::half(width) as i64 }
}

/// An arc stroke.
pub open spec fn arc_of(start: Point, mid: Point, end: Point, width: int) -> ShapeV {
    ShapeV::Stroke {
        path: PathV { start, segs: seq![Seg::Arc { mid, end }] },
        radius: path::half(width) as i64,
    }
}

/// A sharp-cornered filled polygon.
pub open spec fn polygon_of(points: Seq<Point>) -> ShapeV {
    ShapeV::Polygon { path: path::polyline_of(points), radius: 0 }
}

/// A sharp rectangle.
pub open spec fn rect_of(c: Point, w: int, h: int) -> ShapeV {
    polygon_of(rect_corners(c, path::half(w), path::half(h)))
}

/// A rounded rectangle.
pub open spec fn round_rect_of(c: Point, w: int, h: int, r: int) -> ShapeV {
    let k = corner_radius(w, h, r);
    ShapeV::Polygon {
        path: path::polyline_of(rect_corners(c, path::half(w) - k, path::half(h) - k)),
        radius: k as i64,
    }
}

fn corner_vec(c: Point, hw: Nm, hh: Nm) -> (r: Vec<Point>)
    requires
        rect_fits(c, hw as int, hh as int),
    ensures
        r@ == rect_corners(c, hw as int, hh as int),
{
    let mut v: Vec<Point> = Vec::new();
    v.push(Point { x: c.x - hw, y: c.y - hh });
    v.push(Point { x: c.x + hw, y: c.y - hh });
    v.push(Point { x: c.x + hw, y: c.y + hh });
    v.push(Point { x: c.x - hw, y: c.y + hh });
    assert(v@ =~= rect_corners(c, hw as int, hh as int));
    v
}

impl Shape2D {
    /// A round pad or via annulus: a disc of `radius` at `c`.
    pub fn disc(c: Point, radius: Nm) -> (r: Shape2D)
        ensures
            r@ == disc_of(c, radius as int),
    {
        let segs: Vec<Seg> = Vec::new();
        let r = Shape2D::Stroke { path: Path { start: c, segs }, radius };
        assert(r@->Stroke_path.segs =~= Seq::empty());
        r
    }

    /// A pill: the `radius`-inflation of segment `a`–`b`.
    pub fn capsule(a: Point, b: Point, radius: Nm) -> (r: Shape2D)
        ensures
            r@ == capsule_of(a, b, radius as int),
    {
        let mut segs: Vec<Seg> = Vec::new();
        segs.push(Seg::Line { end: b });
        let r = Shape2D::Stroke { path: Path { start: a, segs }, radius };
        assert(r@->Stroke_path.segs =~= seq![Seg::Line { end: b }]);
        r
    }

    /// A trace: a polyline of copper `width` wide.
    pub fn trace(points: Vec<Point>, width: Nm) -> (r: Shape2D)
        requires
            points.len() > 0,
        ensures
            r@ == trace_of(points@, width as int),
    {
        Shape2D::Stroke { path: Path::polyline(points), radius: width / 2 }
    }

    /// `width`-wide copper along the circular arc through `start`, `mid` and `end`.
    pub fn arc(start: Point, mid: Point, end: Point, width: Nm) -> (r: Shape2D)
        ensures
            r@ == arc_of(start, mid, end, width as int),
    {
        let mut segs: Vec<Seg> = Vec::new();
        segs.push(Seg::Arc { mid, end });
        let r = Shape2D::Stroke { path: Path { start, segs }, radius: width / 2 };
        assert(r@->Stroke_path.segs =~= seq![Seg::Arc { mid, end }]);
        r
    }

    /// `width`-wide copper along a cubic Bézier.
    pub fn cubic(start: Point, c1: Point, c2: Point, end: Point, width: Nm) -> (r: Shape2D)
        ensures
            r@ == (ShapeV::Stroke {
                path: PathV { start, segs: seq![Seg::Cubic { c1, c2, end }] },
                radius: path::half(width as int) as i64,
            }),
    {
        let mut segs: Vec<Seg> = Vec::new();
        segs.push(Seg::Cubic { c1, c2, end });
        let r = Shape2D::Stroke { path: Path { start, segs }, radius: width / 2 };
        assert(r@->Stroke_path.segs =~= seq![Seg::Cubic { c1, c2, end }]);
        r
    }

    /// An axis-aligned rectangle of size `w`×`h` centred at `c`.
    pub fn rect(c: Point, w: Nm, h: Nm) -> (r: Shape2D)
        requires
            rect_fits(c, path::half(w as int), path::half(h as int)),
        ensures
            r@ == rect_of(c, w as int, h as int),
    {
        Shape2D::Polygon { path: Path::polyline(corner_vec(c, w / 2, h / 2)), radius: 0 }
    }

    /// An axis-aligned rounded rectangle: the rectangle inset by the corner radius,
    /// inflated by it. An over-large radius is held to half the shorter side.
    pub fn round_rect(c: Point, w: Nm, h: Nm, r: Nm) -> (s: Shape2D)
        requires
            path::half(w as int) >= 0,
            path::half(h as int) >= 0,
            rect_fits(c, path::half(w as int), path::half(h as int)),
        ensures
            s@ == round_rect_of(c, w as int, h as int, r as int),
    {
        let most: Nm = if w < h {
            w / 2
        } else {
            h / 2
        };
        let k: Nm = if r < 0 {
            0
        } else if r > most {
            most
        } else {
            r
        };
        Shape2D::Polygon {
            path: Path::polyline(corner_vec(c, w / 2 - k, h / 2 - k)),
            radius: k,
        }
    }

    /// A filled polygon through explicit points.
    pub fn polygon(points: Vec<Point>) -> (r: Shape2D)
        requires
            points.len() > 0,
        ensures
            r@ == polygon_of(points@),
    {
        Shape2D::Polygon { path: Path::polyline(points), radius: 0 }
    }

    /// A filled polygon from a path (its edges may be curves) and a corner radius.
    pub fn polygon_path(path: Path, radius: Nm) -> (r: Shape2D)
        ensures
            r@ == (ShapeV::Polygon { path: path@, radius }),
    {
        Shape2D::Polygon { path, radius }
    }
}

// ---------------------------------------------------------------------------
// Queries.
// ---------------------------------------------------------------------------

impl Shape2D {
    /// The skeleton path. An area has none.
    pub fn path(&self) -> (r: &Path)
        requires
            !(self@ is Area),
        ensures
            r@ == path_of(self@),
    {
        match self {
            Shape2D::Stroke { path, .. } => path,
            Shape2D::Polygon { path, .. } => path,
            Shape2D::Area { .. } => vstd::pervasive::unreached(),
        }
    }

    /// The region of an area, else `None`.
    pub fn region(&self) -> (r: Option<&Region>)
        ensures
            match self@ {
                ShapeV::Area { rings } => r is Some && r->0@ == rings,
                _ => r is None,
            },
    {
        match self {
            Shape2D::Area { region } => Some(region),
            _ => None,
        }
    }

    /// Is this a filled area?
    pub fn is_area(&self) -> (r: bool)
        ensures
            r == (self@ is Area),
    {
        match self {
            Shape2D::Area { .. } => true,
            _ => false,
        }
    }

    /// The inflation radius.
    pub fn radius(&self) -> (r: Nm)
        ensures
            r == radius_of(self@),
    {
        match self {
            Shape2D::Stroke { radius, .. } => *radius,
            Shape2D::Polygon { radius, .. } => *radius,
            Shape2D::Area { .. } => 0,
        }
    }

    /// This shape inflated by `d`: the skeleton unchanged, the radius grown by `d` (a
    /// negative `d` deflates, to zero at most). An area has no radius to grow, so only
    /// `d == 0` is meaningful for it.
    pub fn inflated(&self, d: Nm) -> (r: Shape2D)
        requires
            i64::MIN <= radius_of(self@) + d <= i64::MAX,
            self@ is Area ==> d == 0,
        ensures
            r@ == inflate(self@, d as int),
    {
        match self {
            Shape2D::Stroke { path, radius } => Shape2D::Stroke {
                path: path.clone(),
                radius: if *radius + d < 0 {
                    0
                } else {
                    *radius + d
                },
            },
            Shape2D::Polygon { path, radius } => Shape2D::Polygon {
                path: path.clone(),
                radius: if *radius + d < 0 {
                    0
                } else {
                    *radius + d
                },
            },
            Shape2D::Area { region } => Shape2D::Area { region: region.clone() },
        }
    }

    /// Corner vertices in order. Curvature is not reflected here.
    pub fn points(&self) -> (r: Vec<Point>)
        ensures
            r@ == corner_points(self@),
    {
        match self {
            Shape2D::Area { region } => region.all_points(),
            Shape2D::Stroke { path, .. } => path.corners(),
            Shape2D::Polygon { path, .. } => path.corners(),
        }
    }

    /// Every lattice point this shape is defined by, arc midpoints and Bézier controls
    /// included.
    pub fn coords(&self) -> (r: Vec<Point>)
        ensures
            r@ == defining_points(self@),
    {
        match self {
            Shape2D::Area { region } => region.all_points(),
            Shape2D::Stroke { path, .. } => path.defining_points(),
            Shape2D::Polygon { path, .. } => path.defining_points(),
        }
    }

    /// The flattened skeleton polyline, or an area's vertices.
    pub fn skeleton_points(&self) -> (r: Vec<Point>)
        requires
            shape_safe(self@),
        ensures
            r@ == skeleton(self@),
    {
        proof {
            if !(self@ is Area) {
                path::safe_is_flattenable(path_of(self@));
            }
        }
        match self {
            Shape2D::Area { region } => region.all_points(),
            Shape2D::Stroke { path, .. } => path.flatten(DEFAULT_CHORD_TOL),
            Shape2D::Polygon { path, .. } => path.flatten(DEFAULT_CHORD_TOL),
        }
    }

    /// The skeleton's straight edges, curves flattened: a polygon closes, a lone point
    /// gives one degenerate edge.
    pub fn segments(&self) -> (r: Vec<(Point, Point)>)
        requires
            shape_safe(self@),
        ensures
            r@ == edges(self@),
    {
        proof {
            if !(self@ is Area) {
                path::safe_is_flattenable(path_of(self@));
            }
        }
        match self {
            Shape2D::Stroke { path, .. } => {
                let pts = path.flatten(DEFAULT_CHORD_TOL);
                open_edge_vec(&pts)
            },
            Shape2D::Polygon { path, .. } => {
                let pts = path.flatten(DEFAULT_CHORD_TOL);
                let mut out: Vec<(Point, Point)> = Vec::new();
                push_closed_edges(&pts, &mut out);
                assert(out@ =~= closed_edges(pts@));
                out
            },
            Shape2D::Area { region } => {
                let mut out: Vec<(Point, Point)> = Vec::new();
                let mut i: usize = 0;
                assert(out@ =~= ring_edges(region@, 0));
                while i < region.rings.len()
                    invariant
                        i <= region.rings.len(),
                        out@ == ring_edges(region@, i as nat),
                    decreases region.rings.len() - i,
                {
                    assert(region@[i as int] == region.rings@[i as int]@);
                    if region.rings[i].len() >= 2 {
                        push_closed_edges(&region.rings[i], &mut out);
                    }
                    i += 1;
                }
                out
            },
        }
    }

    /// Axis-aligned bounding box of the flattened skeleton, grown by the radius.
    pub fn bbox(&self) -> (r: Option<(Point, Point)>)
        requires
            shape_safe(self@),
            limits::all_exact(skeleton(self@)),
            -limits::EXACT_COORD < radius_of(self@) < limits::EXACT_COORD,
        ensures
            r == bbox_of(self@),
    {
        let pts = self.skeleton_points();
        if pts.len() == 0 {
            return None;
        }
        let mut lo = pts[0];
        let mut hi = pts[0];
        let mut i: usize = 1;
        while i < pts.len()
            invariant
                1 <= i <= pts.len(),
                (lo, hi) == box_prefix(pts@, i as nat),
                limits::all_exact(pts@),
                limits::pt_exact(lo),
                limits::pt_exact(hi),
            decreases pts.len() - i,
        {
            let p = pts[i];
            assert(limits::pt_exact(pts@[i as int]));
            if p.x < lo.x {
                lo.x = p.x;
            }
            if p.y < lo.y {
                lo.y = p.y;
            }
            if p.x > hi.x {
                hi.x = p.x;
            }
            if p.y > hi.y {
                hi.y = p.y;
            }
            i += 1;
        }
        let r = self.radius();
        Some((Point { x: lo.x - r, y: lo.y - r }, Point { x: hi.x + r, y: hi.y + r }))
    }

    /// Does this shape's filled area contain `p`? A stroke has no area.
    pub fn area_contains(&self, p: Point) -> (r: bool)
        requires
            limits::pt_exact(p),
            shape_safe(self@),
            limits::all_exact(skeleton(self@)),
        ensures
            r == area_has(self@, p),
    {
        match self {
            Shape2D::Stroke { .. } => false,
            Shape2D::Polygon { .. } => point_in_polygon(p, &self.skeleton_points()),
            Shape2D::Area { region } => {
                proof {
                    assert forall|i: int| 0 <= i < region@.len() implies limits::all_exact(
                        #[trigger] region@[i],
                    ) by {
                        assert forall|j: int| 0 <= j < region@[i].len() implies limits::pt_exact(
                            #[trigger] region@[i][j],
                        ) by {
                            assert(limits::all_safe(region@[i]));
                        }
                    }
                }
                region.contains_point(p)
            },
        }
    }

    /// Is `p` inside this shape's filled area? The boundary counts as inside.
    pub fn contains_point(&self, p: Point) -> (r: bool)
        requires
            limits::pt_exact(p),
            shape_safe(self@),
            limits::all_exact(skeleton(self@)),
        ensures
            r == area_has(self@, p),
    {
        self.area_contains(p)
    }
}

fn open_edge_vec(pts: &Vec<Point>) -> (r: Vec<(Point, Point)>)
    requires
        pts.len() > 0,
    ensures
        r@ == open_edges(pts@),
{
    let mut out: Vec<(Point, Point)> = Vec::new();
    if pts.len() == 1 {
        out.push((pts[0], pts[0]));
        assert(out@ =~= open_edges(pts@));
        return out;
    }
    let mut i: usize = 0;
    while i + 1 < pts.len()
        invariant
            i + 1 <= pts.len(),
            out.len() == i,
            forall|j: int| 0 <= j < i ==> out@[j] == (pts@[j], pts@[j + 1]),
        decreases pts.len() - i,
    {
        out.push((pts[i], pts[i + 1]));
        i += 1;
    }
    assert(out@ =~= open_edges(pts@));
    out
}

fn push_closed_edges(pts: &Vec<Point>, out: &mut Vec<(Point, Point)>)
    ensures
        final(out)@ == old(out)@ + closed_edges(pts@),
{
    let n = pts.len();
    let mut i: usize = 0;
    while i < n
        invariant
            n == pts.len(),
            i <= n,
            out@.len() == old(out)@.len() + i,
            forall|j: int| 0 <= j < old(out)@.len() ==> out@[j] == old(out)@[j],
            forall|j: int|
                0 <= j < i ==> out@[old(out)@.len() + j] == (
                    pts@[j],
                    pts@[polygon::next(j, n as int)],
                ),
        decreases n - i,
    {
        let b = if i + 1 == n {
            pts[0]
        } else {
            pts[i + 1]
        };
        out.push((pts[i], b));
        i += 1;
    }
    assert(out@ =~= old(out)@ + closed_edges(pts@));
}

// ---------------------------------------------------------------------------
// Mapping.
// ---------------------------------------------------------------------------

/// What a map must accept, and, for an area (whose rings are measured before and after),
/// what it must return.
pub open spec fn mappable<F: Fn(Point) -> Point>(s: ShapeV, f: &F) -> bool {
    &&& forall|p: Point| defining_points(s).contains(p) ==> call_requires(f, (p,))
    &&& s is Area ==> {
        &&& shape_safe(s)
        &&& forall|p: Point, q: Point|
            defining_points(s).contains(p) && #[trigger] call_ensures(f, (p,), q)
                ==> limits::pt_safe(q)
    }
}

fn reverse_points(v: &Vec<Point>) -> (r: Vec<Point>)
    ensures
        r@ == v@.reverse(),
{
    let mut out: Vec<Point> = Vec::new();
    let mut i: usize = v.len();
    while i > 0
        invariant
            i <= v.len(),
            out.len() == v.len() - i,
            forall|j: int| 0 <= j < out.len() ==> out@[j] == v@[v.len() - 1 - j],
        decreases i,
    {
        i -= 1;
        out.push(v[i]);
    }
    assert(out@ =~= v@.reverse());
    out
}

fn map_ring<F: Fn(Point) -> Point>(ring: &Vec<Point>, f: &F) -> (r: Vec<Point>)
    requires
        limits::all_safe(ring@),
        forall|p: Point| ring@.contains(p) ==> call_requires(f, (p,)),
        forall|p: Point, q: Point|
            ring@.contains(p) && #[trigger] call_ensures(f, (p,), q) ==> limits::pt_safe(q),
    ensures
        ring_mapped(ring@, r@, f),
{
    let before = signed_area2(ring);
    let mut m: Vec<Point> = Vec::new();
    let mut i: usize = 0;
    while i < ring.len()
        invariant
            i <= ring.len(),
            m.len() == i,
            forall|p: Point| ring@.contains(p) ==> call_requires(f, (p,)),
            forall|p: Point, q: Point|
                ring@.contains(p) && #[trigger] call_ensures(f, (p,), q) ==> limits::pt_safe(q),
            forall|j: int| 0 <= j < i ==> call_ensures(f, (ring@[j],), #[trigger] m@[j]),
            forall|j: int| 0 <= j < i ==> limits::pt_safe(#[trigger] m@[j]),
        decreases ring.len() - i,
    {
        assert(ring@.contains(ring@[i as int]));
        let q = f(ring[i]);
        assert(call_ensures(f, (ring@[i as int],), q));
        m.push(q);
        i += 1;
    }
    assert(ring_image(ring@, m@, f));
    let after = signed_area2(&m);
    if after != 0 && (before > 0) != (after > 0) {
        let r = reverse_points(&m);
        assert(r@ == rewound(ring@, m@));
        r
    } else {
        assert(m@ == rewound(ring@, m@));
        m
    }
}

proof fn ring_point_is_vertex(rings: Seq<Seq<Point>>, k: nat, i: int, p: Point)
    requires
        0 <= i < k <= rings.len(),
        rings[i].contains(p),
    ensures
        polygon::vertices_prefix(rings, k).contains(p),
    decreases k,
{
    let prev = polygon::vertices_prefix(rings, (k - 1) as nat);
    let all = polygon::vertices_prefix(rings, k);
    if i == k - 1 {
        let j = choose|j: int| 0 <= j < rings[i].len() && rings[i][j] == p;
        assert(all[prev.len() + j] == p);
    } else {
        ring_point_is_vertex(rings, (k - 1) as nat, i, p);
        let j = choose|j: int| 0 <= j < prev.len() && prev[j] == p;
        assert(all[j] == p);
    }
}

impl Shape2D {
    /// Apply a point map (such as a placement) to every defining point, keeping the
    /// radius. A reflecting map would turn islands into holes, so each ring of an area
    /// is turned back to the winding it had.
    pub fn map_points<F: Fn(Point) -> Point>(&self, f: F) -> (r: Shape2D)
        requires
            mappable(self@, &f),
        ensures
            shape_mapped(self@, r@, &f),
    {
        match self {
            Shape2D::Stroke { path, radius } => {
                assert(defining_points(self@) == path::defining_of(path@));
                Shape2D::Stroke { path: path.map(&f), radius: *radius }
            },
            Shape2D::Polygon { path, radius } => {
                assert(defining_points(self@) == path::defining_of(path@));
                Shape2D::Polygon { path: path.map(&f), radius: *radius }
            },
            Shape2D::Area { region } => {
                let mut rings: Vec<Vec<Point>> = Vec::new();
                let mut i: usize = 0;
                while i < region.rings.len()
                    invariant
                        i <= region.rings.len(),
                        rings.len() == i,
                        self@ == (ShapeV::Area { rings: region@ }),
                        mappable(self@, &f),
                        forall|j: int|
                            0 <= j < i ==> ring_mapped(region@[j], (#[trigger] rings@[j])@, &f),
                    decreases region.rings.len() - i,
                {
                    let ring = &region.rings[i];
                    proof {
                        assert(region@[i as int] == ring@);
                        assert(limits::all_safe(region@[i as int]));
                        assert forall|p: Point| ring@.contains(p) implies defining_points(
                            self@,
                        ).contains(p) by {
                            ring_point_is_vertex(region@, region@.len(), i as int, p);
                        }
                    }
                    rings.push(map_ring(ring, &f));
                    i += 1;
                }
                let r = Region { rings };
                proof {
                    assert forall|j: int| 0 <= j < region@.len() implies ring_mapped(
                        region@[j],
                        #[trigger] r@[j],
                        &f,
                    ) by {
                        assert(r@[j] == r.rings@[j]@);
                    }
                }
                Shape2D::Area { region: r }
            },
        }
    }
}

} // verus!
