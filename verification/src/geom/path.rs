//! Skeleton paths: straight, circular and Bézier edges, and the one seam through which
//! curves become polylines.

use super::limits;
use super::limits::KERNEL_SAFE_COORD;
use super::seg;
use super::seg::pt_seg_within2;
use crate::binary64;
use crate::binary64::Real;
use crate::coord::{Nm, Point};
use vstd::arithmetic::power2::lemma_pow2_pos;
use vstd::prelude::*;

verus! {

/// One edge of a [`Path`], starting at the previous point.
#[derive(Clone, Copy, Debug, PartialEq, Eq, Structural)]
pub enum Seg {
    /// A straight edge.
    Line { end: Point },
    /// The circular arc from the current point through `mid` to `end`. A collinear
    /// triple is a straight chord.
    Arc { mid: Point, end: Point },
    /// A quadratic Bézier with control point `ctrl`.
    Quadratic { ctrl: Point, end: Point },
    /// A cubic Bézier with control points `c1` and `c2`.
    Cubic { c1: Point, c2: Point, end: Point },
}

/// Where an edge ends.
pub open spec fn seg_end(s: Seg) -> Point {
    match s {
        Seg::Line { end } => end,
        Seg::Arc { end, .. } => end,
        Seg::Quadratic { end, .. } => end,
        Seg::Cubic { end, .. } => end,
    }
}

/// An edge with every defining point mapped.
pub open spec fn seg_map(s: Seg, g: spec_fn(Point) -> Point) -> Seg {
    match s {
        Seg::Line { end } => Seg::Line { end: g(end) },
        Seg::Arc { mid, end } => Seg::Arc { mid: g(mid), end: g(end) },
        Seg::Quadratic { ctrl, end } => Seg::Quadratic { ctrl: g(ctrl), end: g(end) },
        Seg::Cubic { c1, c2, end } => Seg::Cubic { c1: g(c1), c2: g(c2), end: g(end) },
    }
}

/// The points an edge is defined by, its own end last.
pub open spec fn seg_points(s: Seg) -> Seq<Point> {
    match s {
        Seg::Line { end } => seq![end],
        Seg::Arc { mid, end } => seq![mid, end],
        Seg::Quadratic { ctrl, end } => seq![ctrl, end],
        Seg::Cubic { c1, c2, end } => seq![c1, c2, end],
    }
}

impl Seg {
    /// Where this edge ends.
    pub fn end(&self) -> (r: Point)
        ensures
            r == seg_end(*self),
    {
        match self {
            Seg::Line { end } => *end,
            Seg::Arc { end, .. } => *end,
            Seg::Quadratic { end, .. } => *end,
            Seg::Cubic { end, .. } => *end,
        }
    }

    /// This edge with every defining point mapped by `f`.
    pub fn map<F: Fn(Point) -> Point>(&self, f: &F) -> (r: Seg)
        requires
            forall|p: Point| seg_points(*self).contains(p) ==> call_requires(f, (p,)),
        ensures
            seg_mapped(*self, r, f),
    {
        proof {
            let s = seg_points(*self);
            match *self {
                Seg::Line { end } => {
                    assert(s.contains(s[0]));
                },
                Seg::Arc { mid, end } => {
                    assert(s.contains(s[0]) && s.contains(s[1]));
                },
                Seg::Quadratic { ctrl, end } => {
                    assert(s.contains(s[0]) && s.contains(s[1]));
                },
                Seg::Cubic { c1, c2, end } => {
                    assert(s.contains(s[0]) && s.contains(s[1]) && s.contains(s[2]));
                },
            }
        }
        match self {
            Seg::Line { end } => Seg::Line { end: f(*end) },
            Seg::Arc { mid, end } => Seg::Arc { mid: f(*mid), end: f(*end) },
            Seg::Quadratic { ctrl, end } => Seg::Quadratic { ctrl: f(*ctrl), end: f(*end) },
            Seg::Cubic { c1, c2, end } => Seg::Cubic { c1: f(*c1), c2: f(*c2), end: f(*end) },
        }
    }
}

/// `r` is `s` with every defining point sent through the executable map `f`.
pub open spec fn seg_mapped<F: Fn(Point) -> Point>(s: Seg, r: Seg, f: &F) -> bool {
    match (s, r) {
        (Seg::Line { end }, Seg::Line { end: e }) => call_ensures(f, (end,), e),
        (Seg::Arc { mid, end }, Seg::Arc { mid: m, end: e }) => call_ensures(f, (mid,), m)
            && call_ensures(f, (end,), e),
        (Seg::Quadratic { ctrl, end }, Seg::Quadratic { ctrl: c, end: e }) => call_ensures(
            f,
            (ctrl,),
            c,
        ) && call_ensures(f, (end,), e),
        (Seg::Cubic { c1, c2, end }, Seg::Cubic { c1: a, c2: b, end: e }) => call_ensures(
            f,
            (c1,),
            a,
        ) && call_ensures(f, (c2,), b) && call_ensures(f, (end,), e),
        _ => false,
    }
}

/// A skeleton path: a start point followed by edges. A stroke reads it as open; a
/// polygon closes it with an implicit straight edge back to the start.
#[derive(Debug, PartialEq, Eq)]
pub struct Path {
    pub start: Point,
    pub segs: Vec<Seg>,
}

/// A path as a value: its start and its edges.
#[verifier::ext_equal]
pub struct PathV {
    pub start: Point,
    pub segs: Seq<Seg>,
}

impl View for Path {
    type V = PathV;

    open spec fn view(&self) -> PathV {
        PathV { start: self.start, segs: self.segs@ }
    }
}

impl Clone for Path {
    fn clone(&self) -> (r: Path)
        ensures
            r@ == self@,
    {
        Path { start: self.start, segs: clone_segs(&self.segs) }
    }
}

fn clone_segs(v: &Vec<Seg>) -> (r: Vec<Seg>)
    ensures
        r@ == v@,
{
    let mut out: Vec<Seg> = Vec::new();
    let mut i: usize = 0;
    while i < v.len()
        invariant
            i <= v.len(),
            out@ == v@.take(i as int),
        decreases v.len() - i,
    {
        out.push(v[i]);
        i += 1;
        assert(v@.take(i as int) =~= v@.take(i - 1).push(v@[i - 1]));
    }
    assert(v@.take(i as int) =~= v@);
    out
}

// ---------------------------------------------------------------------------
// What a path is made of.
// ---------------------------------------------------------------------------

/// The straight path through `pts`.
pub open spec fn polyline_of(pts: Seq<Point>) -> PathV {
    PathV {
        start: pts[0],
        segs: Seq::new((pts.len() - 1) as nat, |i: int| Seg::Line { end: pts[i + 1] }),
    }
}

/// The corners: the start, then each edge's end.
pub open spec fn corners_of(p: PathV) -> Seq<Point> {
    Seq::new(
        p.segs.len() + 1,
        |i: int|
            if i == 0 {
                p.start
            } else {
                seg_end(p.segs[i - 1])
            },
    )
}

/// Every lattice point the first `k` edges (and the start) are defined by.
pub open spec fn defining_prefix(p: PathV, k: nat) -> Seq<Point>
    decreases k,
{
    if k == 0 {
        seq![p.start]
    } else {
        defining_prefix(p, (k - 1) as nat) + seg_points(p.segs[k - 1])
    }
}

/// Every lattice point the path is defined by.
pub open spec fn defining_of(p: PathV) -> Seq<Point> {
    defining_prefix(p, p.segs.len())
}

/// The path with every defining point mapped.
pub open spec fn path_map(p: PathV, g: spec_fn(Point) -> Point) -> PathV {
    PathV {
        start: g(p.start),
        segs: Seq::new(p.segs.len(), |i: int| seg_map(p.segs[i], g)),
    }
}

/// Where the path stands after its first `k` edges.
pub open spec fn path_at(p: PathV, k: int) -> Point {
    if k == 0 {
        p.start
    } else {
        seg_end(p.segs[k - 1])
    }
}

/// Every point the path is defined by is kernel-safe.
pub open spec fn path_safe(p: PathV) -> bool {
    &&& limits::pt_safe(p.start)
    &&& forall|i: int|
        0 <= i < p.segs.len() ==> limits::all_safe(seg_points(#[trigger] p.segs[i]))
}

/// Edge `i` can be flattened: it is straight, or an arc whose circumcentre fits, or a curve
/// whose points are all kernel-safe.
pub open spec fn edge_flattenable(p: PathV, i: int) -> bool {
    match p.segs[i] {
        Seg::Line { .. } => true,
        Seg::Arc { mid, end } => {
            &&& limits::pt_round(path_at(p, i))
            &&& limits::pt_round(mid)
            &&& limits::pt_round(end)
        },
        _ => limits::pt_safe(path_at(p, i)) && limits::all_safe(seg_points(p.segs[i])),
    }
}

/// Every edge can be flattened.
pub open spec fn flattenable(p: PathV) -> bool {
    forall|i: int| 0 <= i < p.segs.len() ==> #[trigger] edge_flattenable(p, i)
}

/// A path of kernel-safe points can be flattened.
pub proof fn safe_is_flattenable(p: PathV)
    requires
        path_safe(p),
    ensures
        flattenable(p),
{
    assert forall|i: int| 0 <= i < p.segs.len() implies #[trigger] edge_flattenable(p, i) by {
        assert(limits::all_safe(seg_points(p.segs[i])));
        if p.segs[i] is Arc {
            let sp = seg_points(p.segs[i]);
            assert(limits::pt_safe(sp[0]) && limits::pt_safe(sp[1]));
        }
        if i > 0 {
            let sp = seg_points(p.segs[i - 1]);
            assert(limits::all_safe(sp));
            assert(limits::pt_safe(sp[sp.len() - 1]));
        }
    }
}

/// The corners are among the defining points.
pub proof fn corners_are_defining(p: PathV, i: int)
    requires
        0 <= i <= p.segs.len(),
    ensures
        defining_of(p).contains(corners_of(p)[i]),
{
    corners_in_prefix(p, p.segs.len(), i);
}

proof fn corners_in_prefix(p: PathV, k: nat, i: int)
    requires
        0 <= i <= k <= p.segs.len(),
    ensures
        defining_prefix(p, k).contains(corners_of(p)[i]),
    decreases k,
{
    let d = defining_prefix(p, k);
    if k == 0 {
        assert(d[0] == p.start);
    } else if i == k {
        let s = seg_points(p.segs[k - 1]);
        assert(d[d.len() - 1] == s[s.len() - 1]);
        assert(s[s.len() - 1] == seg_end(p.segs[k - 1]));
    } else {
        corners_in_prefix(p, (k - 1) as nat, i);
        let prev = defining_prefix(p, (k - 1) as nat);
        let j = choose|j: int| 0 <= j < prev.len() && prev[j] == corners_of(p)[i];
        assert(d[j] == prev[j]);
    }
}

// ---------------------------------------------------------------------------
// Bézier edges: integer de Casteljau.
// ---------------------------------------------------------------------------

/// The deepest Bézier subdivision.
pub const MAX_BEZIER_DEPTH: u32 = 24;

/// Half of `n`, towards zero.
pub open spec fn half(n: int) -> int {
    if n >= 0 {
        n / 2
    } else {
        -((-n) / 2)
    }
}

/// The lattice midpoint.
pub open spec fn mid_of(a: Point, b: Point) -> Point {
    Point { x: half(a.x + b.x) as i64, y: half(a.y + b.y) as i64 }
}

/// A quadratic Bézier as the polyline points after `p0`: split at the midpoint until the
/// control point is within tolerance of the chord.
pub open spec fn quad_points(p0: Point, c: Point, p2: Point, tol2: int, depth: nat) -> Seq<Point>
    decreases MAX_BEZIER_DEPTH - depth,
{
    if depth >= MAX_BEZIER_DEPTH || seg::point_within(c, p0, p2, tol2) {
        seq![p2]
    } else {
        let p01 = mid_of(p0, c);
        let p12 = mid_of(c, p2);
        let m = mid_of(p01, p12);
        quad_points(p0, p01, m, tol2, depth + 1) + quad_points(m, p12, p2, tol2, depth + 1)
    }
}

/// A cubic Bézier as the polyline points after `p0`: split at the midpoint until both
/// control points are within tolerance of the chord.
pub open spec fn cubic_points(
    p0: Point,
    c1: Point,
    c2: Point,
    p3: Point,
    tol2: int,
    depth: nat,
) -> Seq<Point>
    decreases MAX_BEZIER_DEPTH - depth,
{
    if depth >= MAX_BEZIER_DEPTH || (seg::point_within(c1, p0, p3, tol2) && seg::point_within(
        c2,
        p0,
        p3,
        tol2,
    )) {
        seq![p3]
    } else {
        let p01 = mid_of(p0, c1);
        let p12 = mid_of(c1, c2);
        let p23 = mid_of(c2, p3);
        let p012 = mid_of(p01, p12);
        let p123 = mid_of(p12, p23);
        let m = mid_of(p012, p123);
        cubic_points(p0, p01, p012, m, tol2, depth + 1) + cubic_points(
            m,
            p123,
            p23,
            p3,
            tol2,
            depth + 1,
        )
    }
}

/// The integer midpoint of two lattice points.
pub fn midpoint(a: Point, b: Point) -> (r: Point)
    requires
        limits::pt_exact(a),
        limits::pt_exact(b),
    ensures
        r == mid_of(a, b),
        limits::pt_safe(a) && limits::pt_safe(b) ==> limits::pt_safe(r),
{
    Point { x: (a.x + b.x) / 2, y: (a.y + b.y) / 2 }
}

fn subdivide_quad(p0: Point, c: Point, p2: Point, tol2: i128, depth: u32, out: &mut Vec<Point>)
    requires
        limits::pt_safe(p0),
        limits::pt_safe(c),
        limits::pt_safe(p2),
        0 <= tol2 <= 8 * KERNEL_SAFE_COORD * KERNEL_SAFE_COORD,
    ensures
        final(out)@ == old(out)@ + quad_points(p0, c, p2, tol2 as int, depth as nat),
    decreases MAX_BEZIER_DEPTH - depth,
{
    if depth >= MAX_BEZIER_DEPTH || pt_seg_within2(c, p0, p2, tol2) {
        out.push(p2);
        assert(out@ =~= old(out)@ + seq![p2]);
        return;
    }
    let p01 = midpoint(p0, c);
    let p12 = midpoint(c, p2);
    let m = midpoint(p01, p12);
    subdivide_quad(p0, p01, m, tol2, depth + 1, out);
    subdivide_quad(m, p12, p2, tol2, depth + 1, out);
    assert(out@ =~= old(out)@ + quad_points(p0, c, p2, tol2 as int, depth as nat));
}

#[verifier::spinoff_prover]
#[verifier::rlimit(40)]
fn subdivide_cubic(
    p0: Point,
    c1: Point,
    c2: Point,
    p3: Point,
    tol2: i128,
    depth: u32,
    out: &mut Vec<Point>,
)
    requires
        limits::pt_safe(p0),
        limits::pt_safe(c1),
        limits::pt_safe(c2),
        limits::pt_safe(p3),
        0 <= tol2 <= 8 * KERNEL_SAFE_COORD * KERNEL_SAFE_COORD,
    ensures
        final(out)@ == old(out)@ + cubic_points(p0, c1, c2, p3, tol2 as int, depth as nat),
    decreases MAX_BEZIER_DEPTH - depth,
{
    if depth >= MAX_BEZIER_DEPTH || (pt_seg_within2(c1, p0, p3, tol2) && pt_seg_within2(
        c2,
        p0,
        p3,
        tol2,
    )) {
        out.push(p3);
        assert(out@ =~= old(out)@ + seq![p3]);
        return;
    }
    let p01 = midpoint(p0, c1);
    let p12 = midpoint(c1, c2);
    let p23 = midpoint(c2, p3);
    let p012 = midpoint(p01, p12);
    let p123 = midpoint(p12, p23);
    let m = midpoint(p012, p123);
    let ghost was = out@;
    let ghost left = cubic_points(p0, p01, p012, m, tol2 as int, (depth + 1) as nat);
    let ghost right = cubic_points(m, p123, p23, p3, tol2 as int, (depth + 1) as nat);
    assert(cubic_points(p0, c1, c2, p3, tol2 as int, depth as nat) == left + right);
    subdivide_cubic(p0, p01, p012, m, tol2, depth + 1, out);
    subdivide_cubic(m, p123, p23, p3, tol2, depth + 1, out);
    assert(was + left + right =~= was + (left + right));
}

/// The largest chord tolerance the flatness test can square exactly.
pub const MAX_TOL: Nm = 3_609_000_000;

/// The tolerance actually used: at least one nanometre.
pub open spec fn used_tol(tol: int) -> int {
    if tol < 1 {
        1
    } else {
        tol
    }
}

fn tol_squared(tol: Nm) -> (r: i128)
    requires
        tol <= MAX_TOL,
    ensures
        r == used_tol(tol as int) * used_tol(tol as int),
        0 <= r <= 8 * KERNEL_SAFE_COORD * KERNEL_SAFE_COORD,
{
    let t: i128 = if tol < 1 {
        1
    } else {
        tol as i128
    };
    proof {
        assert(0 <= t * t <= 13_024_881_000_000_000_000) by (nonlinear_arith)
            requires
                1 <= t <= 3_609_000_000,
        ;
        assert(8 * KERNEL_SAFE_COORD * KERNEL_SAFE_COORD == 13_025_408_000_000_000_000)
            by (nonlinear_arith)
            requires
                KERNEL_SAFE_COORD == 1_276_000_000,
        ;
    }
    t * t
}

// ---------------------------------------------------------------------------
// Circular edges.
// ---------------------------------------------------------------------------

/// The circumcentre of three points as `(x_num, y_num, den)`; `den` is zero exactly when
/// they are collinear, and its sign is the turn direction.
pub open spec fn circum(a: Point, b: Point, c: Point) -> (int, int, int) {
    let a2 = seg::norm2(a.x as int, a.y as int);
    let b2 = seg::norm2(b.x as int, b.y as int);
    let c2 = seg::norm2(c.x as int, c.y as int);
    (
        a2 * (b.y - c.y) + b2 * (c.y - a.y) + c2 * (a.y - b.y),
        a2 * (c.x - b.x) + b2 * (a.x - c.x) + c2 * (b.x - a.x),
        2 * (a.x * (b.y - c.y) + b.x * (c.y - a.y) + c.x * (a.y - b.y)),
    )
}

/// The circumcentre of three points, exactly, as `(x_num, y_num, den)`.
pub fn circumcenter(a: Point, b: Point, c: Point) -> (r: (i128, i128, i128))
    requires
        limits::pt_round(a),
        limits::pt_round(b),
        limits::pt_round(c),
    ensures
        (r.0 as int, r.1 as int, r.2 as int) == circum(a, b, c),
        -100_000_000_000_000_000_000_000_000 < r.2 < 100_000_000_000_000_000_000_000_000,
{
    let (ax, ay): (i128, i128) = (a.x as i128, a.y as i128);
    let (bx, by): (i128, i128) = (b.x as i128, b.y as i128);
    let (cx, cy): (i128, i128) = (c.x as i128, c.y as i128);
    proof {
        let m: int = 2 * limits::ARC_COORD;
        let n: int = m * m;
        assert(n == 4_000_000_000_000_000_000_000_000) by (nonlinear_arith)
            requires
                n == m * m,
                m == 2 * 1_000_000_000_000,
        ;
        bound(ax as int, by - cy, m);
        bound(bx as int, cy - ay, m);
        bound(cx as int, ay - by, m);
        bound(ax as int, ax as int, m);
        bound(ay as int, ay as int, m);
        bound(bx as int, bx as int, m);
        bound(by as int, by as int, m);
        bound(cx as int, cx as int, m);
        bound(cy as int, cy as int, m);
        let k: int = 2 * n;
        bound(ax * ax + ay * ay, by - cy, k);
        bound(bx * bx + by * by, cy - ay, k);
        bound(cx * cx + cy * cy, ay - by, k);
        bound(ax * ax + ay * ay, cx - bx, k);
        bound(bx * bx + by * by, ax - cx, k);
        bound(cx * cx + cy * cy, bx - ax, k);
        tight(ax * ax + ay * ay, by - cy, k, m);
        tight(bx * bx + by * by, cy - ay, k, m);
        tight(cx * cx + cy * cy, ay - by, k, m);
        tight(ax * ax + ay * ay, cx - bx, k, m);
        tight(bx * bx + by * by, ax - cx, k, m);
        tight(cx * cx + cy * cy, bx - ax, k, m);
        assert(k * m == 16_000_000_000_000_000_000_000_000_000_000_000_000) by (nonlinear_arith)
            requires
                k == 8_000_000_000_000_000_000_000_000,
                m == 2_000_000_000_000,
        ;
    }
    let den: i128 = 2 * (ax * (by - cy) + bx * (cy - ay) + cx * (ay - by));
    let a2: i128 = ax * ax + ay * ay;
    let b2: i128 = bx * bx + by * by;
    let c2: i128 = cx * cx + cy * cy;
    let ux: i128 = a2 * (by - cy) + b2 * (cy - ay) + c2 * (ay - by);
    let uy: i128 = a2 * (cx - bx) + b2 * (ax - cx) + c2 * (bx - ax);
    (ux, uy, den)
}

proof fn bound(x: int, y: int, m: int)
    requires
        -m <= x <= m,
        -m <= y <= m,
    ensures
        -(m * m) <= x * y <= m * m,
{
    assert(-(m * m) <= x * y <= m * m) by (nonlinear_arith)
        requires
            -m <= x <= m,
            -m <= y <= m,
    ;
}

proof fn tight(x: int, y: int, k: int, m: int)
    requires
        -k <= x <= k,
        -m <= y <= m,
    ensures
        -(k * m) <= x * y <= k * m,
{
    assert(-(k * m) <= x * y <= k * m) by (nonlinear_arith)
        requires
            -k <= x <= k,
            -m <= y <= m,
    ;
}

/// The deepest arc subdivision.
pub const MAX_ARC_DEPTH: u32 = 64;

/// The circle an arc lies on, with the tolerance and turn of its tessellation.
#[derive(Clone, Copy, Debug, PartialEq, Eq, Structural)]
pub struct Circle {
    pub cx: Real,
    pub cy: Real,
    pub r: Real,
    pub tol: Real,
    /// Counter-clockwise.
    pub ccw: bool,
}

impl Circle {
    pub open spec fn ok(self) -> bool {
        self.cx.ok() && self.cy.ok() && self.r.ok() && self.tol.ok()
    }
}

/// The sum of two squares.
pub open spec fn sum_squares(x: Real, y: Real) -> Real {
    binary64::sum(binary64::product(x, x), binary64::product(y, y))
}

/// `x·ey − y·ex`.
pub open spec fn det(x: Real, ey: Real, y: Real, ex: Real) -> Real {
    binary64::difference(binary64::product(x, ey), binary64::product(y, ex))
}

/// The circle through three points that are not collinear.
#[verifier::opaque]
pub open spec fn circle_of(start: Point, mid: Point, end: Point, tol: int) -> Circle {
    let (ux, uy, den) = circum(start, mid, end);
    let cx = binary64::quotient(binary64::of_int(ux), binary64::of_int(den));
    let cy = binary64::quotient(binary64::of_int(uy), binary64::of_int(den));
    let rx = binary64::difference(binary64::of_int(start.x as int), cx);
    let ry = binary64::difference(binary64::of_int(start.y as int), cy);
    let r0 = binary64::root(sum_squares(rx, ry));
    let one = binary64::of_int(1);
    Circle {
        cx,
        cy,
        r: if binary64::below(r0, one) {
            one
        } else {
            r0
        },
        tol: binary64::of_int(used_tol(tol)),
        ccw: den > 0,
    }
}

/// Is a value strictly positive?
pub open spec fn positive(a: Real) -> bool {
    !a.neg && a.mant > 0
}

/// How far the chord from `p` to `q` reaches along x.
pub open spec fn chord_x(p: Point, q: Point) -> Real {
    binary64::difference(binary64::of_int(q.x as int), binary64::of_int(p.x as int))
}

/// How far it reaches along y.
pub open spec fn chord_y(p: Point, q: Point) -> Real {
    binary64::difference(binary64::of_int(q.y as int), binary64::of_int(p.y as int))
}

/// The length of a chord.
pub open spec fn chord_length(p: Point, q: Point) -> Real {
    binary64::root(sum_squares(chord_x(p, q), chord_y(p, q)))
}

/// Which side of the chord the point `(x, y)` is on, times the length of the chord and its
/// distance from it.
pub open spec fn side_of(x: Real, y: Real, p: Point, q: Point) -> Real {
    det(
        binary64::difference(x, binary64::of_int(p.x as int)),
        chord_y(p, q),
        binary64::difference(y, binary64::of_int(p.y as int)),
        chord_x(p, q),
    )
}

/// The point of the circle over the middle of the chord, `r` from the centre; a negative
/// `r` gives the opposite one.
pub open spec fn over_chord(p: Point, q: Point, c: Circle, r: Real) -> (Real, Real) {
    let len = chord_length(p, q);
    (
        binary64::sum(
            c.cx,
            binary64::product(r, binary64::quotient(binary64::negated(chord_y(p, q)), len)),
        ),
        binary64::sum(c.cy, binary64::product(r, binary64::quotient(chord_x(p, q), len))),
    )
}

/// The apex of the sub-arc from `p` to `q`: the circle's point over the chord on the side
/// that the arc turns to.
pub open spec fn apex_at(p: Point, q: Point, c: Circle) -> (Real, Real) {
    let (x, y) = over_chord(p, q, c, c.r);
    if positive(side_of(x, y, p, q)) == c.ccw {
        (x, y)
    } else {
        over_chord(p, q, c, binary64::negated(c.r))
    }
}

/// The apex, rounded to the lattice.
pub open spec fn apex_point(p: Point, q: Point, c: Circle) -> Point {
    let (x, y) = apex_at(p, q, c);
    Point { x: binary64::nearest(x) as i64, y: binary64::nearest(y) as i64 }
}

/// How far the apex is from the chord.
pub open spec fn sagitta(p: Point, q: Point, c: Circle) -> Real {
    let (x, y) = apex_at(p, q, c);
    binary64::quotient(binary64::magnitude(side_of(x, y, p, q)), chord_length(p, q))
}

/// The apex of the sub-arc from `p` to `q` where the sub-arc has to be halved there; `None`
/// when the chord already stands for it.
#[verifier::opaque]
pub open spec fn arc_apex(p: Point, q: Point, c: Circle) -> Option<Point> {
    let m = apex_point(p, q, c);
    if chord_length(p, q).mant == 0 || !binary64::below(c.tol, sagitta(p, q, c)) || m == p || m
        == q {
        None
    } else {
        Some(m)
    }
}

/// A sub-arc as the polyline points after `p`.
pub open spec fn sub_arc(p: Point, q: Point, c: Circle, depth: nat) -> Seq<Point>
    decreases MAX_ARC_DEPTH - depth,
{
    if depth >= MAX_ARC_DEPTH {
        seq![q]
    } else {
        match arc_apex(p, q, c) {
            None => seq![q],
            Some(m) => sub_arc(p, m, c, depth + 1) + sub_arc(m, q, c, depth + 1),
        }
    }
}

/// An arc as the polyline points after its start.
pub open spec fn arc_points(start: Point, mid: Point, end: Point, tol: int) -> Seq<Point> {
    if circum(start, mid, end).2 == 0 {
        seq![end]
    } else {
        let c = circle_of(start, mid, end, tol);
        sub_arc(start, mid, c, 0) + sub_arc(mid, end, c, 0)
    }
}

/// A sum of squares is not negative.
pub proof fn squares_not_negative(x: Real, y: Real)
    ensures
        !sum_squares(x, y).neg,
{
    let a = binary64::product(x, x);
    let b = binary64::product(y, y);
    assert(!a.neg && !b.neg);
    if a.mant != 0 && b.mant != 0 {
        let e = if a.exp <= b.exp {
            a.exp as int
        } else {
            b.exp as int
        };
        lemma_pow2_pos((a.exp - e) as nat);
        lemma_pow2_pos((b.exp - e) as nat);
        let pa = vstd::arithmetic::power2::pow2((a.exp - e) as nat) as int;
        let pb = vstd::arithmetic::power2::pow2((b.exp - e) as nat) as int;
        assert(a.mant * pa >= 0) by (nonlinear_arith)
            requires
                a.mant >= 0,
                pa > 0,
        ;
        assert(b.mant * pb >= 0) by (nonlinear_arith)
            requires
                b.mant >= 0,
                pb > 0,
        ;
    }
}

/// The length of a vector in binary64.
pub fn length_of(x: Real, y: Real) -> (r: Real)
    requires
        x.ok(),
        y.ok(),
    ensures
        r == binary64::root(sum_squares(x, y)),
        r.ok(),
{
    proof {
        squares_not_negative(x, y);
    }
    x.times(x).plus(y.times(y)).sqrt()
}

fn det_of(x: Real, ey: Real, y: Real, ex: Real) -> (r: Real)
    requires
        x.ok(),
        ey.ok(),
        y.ok(),
        ex.ok(),
    ensures
        r == det(x, ey, y, ex),
        r.ok(),
{
    x.times(ey).less(y.times(ex))
}

fn apex_of(p: Point, q: Point, c: Circle) -> (r: Option<Point>)
    requires
        c.ok(),
    ensures
        r == arc_apex(p, q, c),
{
    proof {
        reveal(arc_apex);
    }
    let px = Real::from_int(p.x as i128);
    let py = Real::from_int(p.y as i128);
    let ex = Real::from_int(q.x as i128).less(px);
    let ey = Real::from_int(q.y as i128).less(py);
    let elen = length_of(ex, ey);
    if elen.mant == 0 {
        return None;
    }
    let nx = ey.minus_sign().over(elen);
    let ny = ex.over(elen);
    let o1 = det_of(c.cx.plus(c.r.times(nx)).less(px), ey, c.cy.plus(c.r.times(ny)).less(py), ex);
    let left = !o1.neg && o1.mant > 0;
    let sr = if left == c.ccw {
        c.r
    } else {
        c.r.minus_sign()
    };
    let mx = c.cx.plus(sr.times(nx));
    let my = c.cy.plus(sr.times(ny));
    let sag = det_of(mx.less(px), ey, my.less(py), ex).abs().over(elen);
    let m = Point { x: mx.round(), y: my.round() };
    if !c.tol.is_below(sag) || m == p || m == q {
        None
    } else {
        Some(m)
    }
}

fn subdivide_arc(p: Point, q: Point, c: Circle, depth: u32, out: &mut Vec<Point>)
    requires
        c.ok(),
    ensures
        final(out)@ == old(out)@ + sub_arc(p, q, c, depth as nat),
    decreases MAX_ARC_DEPTH - depth,
{
    if depth >= MAX_ARC_DEPTH {
        out.push(q);
        assert(out@ =~= old(out)@ + seq![q]);
        return;
    }
    match apex_of(p, q, c) {
        None => {
            out.push(q);
            assert(out@ =~= old(out)@ + seq![q]);
        },
        Some(m) => {
            subdivide_arc(p, m, c, depth + 1, out);
            subdivide_arc(m, q, c, depth + 1, out);
            assert(out@ =~= old(out)@ + sub_arc(p, q, c, depth as nat));
        },
    }
}

/// Append the flattening of the arc `start`→`mid`→`end`, without its start.
fn flatten_arc(start: Point, mid: Point, end: Point, tol: Nm, out: &mut Vec<Point>)
    requires
        limits::pt_round(start),
        limits::pt_round(mid),
        limits::pt_round(end),
    ensures
        final(out)@ == old(out)@ + arc_points(start, mid, end, tol as int),
{
    if is_collinear(start, mid, end) {
        out.push(end);
        assert(out@ =~= old(out)@ + seq![end]);
        return;
    }
    let c = circle_through(start, mid, end, tol);
    subdivide_arc(start, mid, c, 0, out);
    subdivide_arc(mid, end, c, 0, out);
    assert(out@ =~= old(out)@ + arc_points(start, mid, end, tol as int));
}

fn is_collinear(a: Point, b: Point, c: Point) -> (r: bool)
    requires
        limits::pt_round(a),
        limits::pt_round(b),
        limits::pt_round(c),
    ensures
        r == (circum(a, b, c).2 == 0),
{
    let (_ux, _uy, den) = circumcenter(a, b, c);
    den == 0
}

fn circle_through(start: Point, mid: Point, end: Point, tol: Nm) -> (r: Circle)
    requires
        limits::pt_round(start),
        limits::pt_round(mid),
        limits::pt_round(end),
        circum(start, mid, end).2 != 0,
    ensures
        r == circle_of(start, mid, end, tol as int),
        r.ok(),
{
    let (ux, uy, den) = circumcenter(start, mid, end);
    let d = Real::from_int(den);
    proof {
        reveal(circle_of);
    }
    proof {
        of_int_nonzero(den as int);
    }
    let cx = Real::from_int(ux).over(d);
    let cy = Real::from_int(uy).over(d);
    let rx = Real::from_int(start.x as i128).less(cx);
    let ry = Real::from_int(start.y as i128).less(cy);
    let r0 = length_of(rx, ry);
    let one = Real::from_int(1);
    let r = if r0.is_below(one) {
        one
    } else {
        r0
    };
    let t: Nm = if tol < 1 {
        1
    } else {
        tol
    };
    Circle { cx, cy, r, tol: Real::from_int(t as i128), ccw: den > 0 }
}

/// A nonzero integer stays nonzero.
proof fn of_int_nonzero(n: int)
    requires
        n != 0,
        -0x4000_0000_0000_0000_0000_0000_0000_0000 < n < 0x4000_0000_0000_0000_0000_0000_0000_0000,
    ensures
        binary64::of_int(n).mant != 0,
{
    let m: nat = if n < 0 {
        (-n) as nat
    } else {
        n as nat
    };
    binary64::rounded_nonzero(n < 0, m, 0);
}

// ---------------------------------------------------------------------------
// Whole paths.
// ---------------------------------------------------------------------------

/// An edge starting at `from`, as the polyline points after `from`.
pub open spec fn edge_points(from: Point, s: Seg, tol: int) -> Seq<Point> {
    let tol2 = used_tol(tol) * used_tol(tol);
    match s {
        Seg::Line { end } => seq![end],
        Seg::Arc { mid, end } => arc_points(from, mid, end, tol),
        Seg::Quadratic { ctrl, end } => quad_points(from, ctrl, end, tol2, 0),
        Seg::Cubic { c1, c2, end } => cubic_points(from, c1, c2, end, tol2, 0),
    }
}

/// The start and the first `k` edges, flattened.
pub open spec fn flat_prefix(p: PathV, tol: int, k: nat) -> Seq<Point>
    decreases k,
{
    if k == 0 {
        seq![p.start]
    } else {
        flat_prefix(p, tol, (k - 1) as nat) + edge_points(path_at(p, k - 1), p.segs[k - 1], tol)
    }
}

/// The path as a polyline: the start, then each edge flattened to tolerance `tol`. No
/// closing edge is added.
pub open spec fn flat(p: PathV, tol: int) -> Seq<Point> {
    flat_prefix(p, tol, p.segs.len())
}

impl Path {
    /// The straight path through `points`, of which there must be at least one.
    pub fn polyline(points: Vec<Point>) -> (r: Path)
        requires
            points.len() > 0,
        ensures
            r@ == polyline_of(points@),
    {
        let start = points[0];
        let mut segs: Vec<Seg> = Vec::new();
        let mut i: usize = 1;
        while i < points.len()
            invariant
                1 <= i <= points.len(),
                segs.len() == i - 1,
                forall|j: int| 0 <= j < segs.len() ==> segs@[j] == (Seg::Line { end: points@[j + 1] }),
            decreases points.len() - i,
        {
            segs.push(Seg::Line { end: points[i] });
            i += 1;
        }
        assert(segs@ =~= polyline_of(points@).segs);
        Path { start, segs }
    }

    /// Corner vertices in order: the start, then each edge's end.
    pub fn corners(&self) -> (r: Vec<Point>)
        ensures
            r@ == corners_of(self@),
    {
        let mut v: Vec<Point> = Vec::new();
        v.push(self.start);
        let mut i: usize = 0;
        while i < self.segs.len()
            invariant
                i <= self.segs.len(),
                v.len() == i + 1,
                forall|j: int| 0 <= j <= i ==> v@[j] == corners_of(self@)[j],
            decreases self.segs.len() - i,
        {
            v.push(self.segs[i].end());
            i += 1;
        }
        assert(v@ =~= corners_of(self@));
        v
    }

    /// Every lattice point this path is defined by: arc midpoints and Bézier controls
    /// included.
    pub fn defining_points(&self) -> (r: Vec<Point>)
        ensures
            r@ == defining_of(self@),
    {
        let mut v: Vec<Point> = Vec::new();
        v.push(self.start);
        let mut i: usize = 0;
        assert(v@ =~= defining_prefix(self@, 0));
        while i < self.segs.len()
            invariant
                i <= self.segs.len(),
                v@ == defining_prefix(self@, i as nat),
            decreases self.segs.len() - i,
        {
            let ghost before = v@;
            match self.segs[i] {
                Seg::Line { end } => {
                    v.push(end);
                },
                Seg::Arc { mid, end } => {
                    v.push(mid);
                    v.push(end);
                },
                Seg::Quadratic { ctrl, end } => {
                    v.push(ctrl);
                    v.push(end);
                },
                Seg::Cubic { c1, c2, end } => {
                    v.push(c1);
                    v.push(c2);
                    v.push(end);
                },
            }
            assert(v@ =~= before + seg_points(self.segs@[i as int]));
            i += 1;
        }
        v
    }

    /// Flatten to a polyline: arcs and Béziers subdivided to chord tolerance `tol`. A
    /// closing edge is not added.
    pub fn flatten(&self, tol: Nm) -> (r: Vec<Point>)
        requires
            flattenable(self@),
            tol <= MAX_TOL,
        ensures
            r@ == flat(self@, tol as int),
            r.len() > 0,
    {
        let mut out: Vec<Point> = Vec::new();
        out.push(self.start);
        let mut cur = self.start;
        let mut i: usize = 0;
        let tol2 = tol_squared(tol);
        assert(out@ =~= flat_prefix(self@, tol as int, 0));
        while i < self.segs.len()
            invariant
                i <= self.segs.len(),
                flattenable(self@),
                tol <= MAX_TOL,
                tol2 == used_tol(tol as int) * used_tol(tol as int),
                0 <= tol2 <= 8 * KERNEL_SAFE_COORD * KERNEL_SAFE_COORD,
                cur == path_at(self@, i as int),
                out@ == flat_prefix(self@, tol as int, i as nat),
                out.len() > 0,
            decreases self.segs.len() - i,
        {
            let s = self.segs[i];
            let ghost before = out@;
            proof {
                let sp = seg_points(s);
                assert(edge_flattenable(self@, i as int));
                if s is Quadratic || s is Cubic {
                    assert(limits::pt_safe(sp[sp.len() - 1]));
                    assert(limits::pt_safe(sp[0]));
                    assert(limits::pt_safe(sp[1]));
                }
            }
            match s {
                Seg::Line { end } => {
                    out.push(end);
                    assert(out@ =~= before + seq![end]);
                },
                Seg::Arc { mid, end } => flatten_arc(cur, mid, end, tol, &mut out),
                Seg::Quadratic { ctrl, end } => subdivide_quad(cur, ctrl, end, tol2, 0, &mut out),
                Seg::Cubic { c1, c2, end } => subdivide_cubic(cur, c1, c2, end, tol2, 0, &mut out),
            }
            cur = s.end();
            i += 1;
        }
        out
    }

    /// This path with every defining point mapped by `f`.
    pub fn map<F: Fn(Point) -> Point>(&self, f: &F) -> (r: Path)
        requires
            forall|p: Point| defining_of(self@).contains(p) ==> call_requires(f, (p,)),
        ensures
            path_mapped(self@, r@, f),
    {
        proof {
            path_points_defining(self@);
            assert(defining_of(self@).contains(self@.start));
        }
        let start = f(self.start);
        let mut segs: Vec<Seg> = Vec::new();
        let mut i: usize = 0;
        while i < self.segs.len()
            invariant
                i <= self.segs.len(),
                segs.len() == i,
                forall|p: Point| defining_of(self@).contains(p) ==> call_requires(f, (p,)),
                forall|k: int, p: Point|
                    0 <= k < self.segs.len() && #[trigger] seg_points(self@.segs[k]).contains(p)
                        ==> defining_of(self@).contains(p),
                forall|k: int| 0 <= k < i ==> seg_mapped(self@.segs[k], #[trigger] segs@[k], f),
            decreases self.segs.len() - i,
        {
            assert forall|p: Point| seg_points(self.segs@[i as int]).contains(p) implies call_requires(
                f,
                (p,),
            ) by {
                assert(seg_points(self@.segs[i as int]).contains(p));
            }
            segs.push(self.segs[i].map(f));
            i += 1;
        }
        Path { start, segs }
    }
}

/// `r` is `p` with every defining point sent through the executable map `f`.
pub open spec fn path_mapped<F: Fn(Point) -> Point>(p: PathV, r: PathV, f: &F) -> bool {
    &&& call_ensures(f, (p.start,), r.start)
    &&& r.segs.len() == p.segs.len()
    &&& forall|k: int| 0 <= k < p.segs.len() ==> seg_mapped(p.segs[k], #[trigger] r.segs[k], f)
}

/// A map that always computes `g` gives the path mapped by `g`.
pub proof fn path_mapped_is_map<F: Fn(Point) -> Point>(
    p: PathV,
    r: PathV,
    f: &F,
    g: spec_fn(Point) -> Point,
)
    requires
        path_mapped(p, r, f),
        forall|a: Point, b: Point| call_ensures(f, (a,), b) ==> b == g(a),
    ensures
        r == path_map(p, g),
{
    assert forall|k: int| 0 <= k < p.segs.len() implies r.segs[k] == seg_map(p.segs[k], g) by {
        assert(seg_mapped(p.segs[k], r.segs[k], f));
    }
    assert(r.segs =~= path_map(p, g).segs);
}

/// The start and every edge's points are among the defining points.
proof fn path_points_defining(p: PathV)
    ensures
        defining_of(p).contains(p.start),
        forall|k: int, q: Point|
            0 <= k < p.segs.len() && #[trigger] seg_points(p.segs[k]).contains(q)
                ==> defining_of(p).contains(q),
{
    prefix_points_defining(p, p.segs.len());
}

proof fn prefix_points_defining(p: PathV, n: nat)
    requires
        n <= p.segs.len(),
    ensures
        defining_prefix(p, n).contains(p.start),
        forall|k: int, q: Point|
            0 <= k < n && #[trigger] seg_points(p.segs[k]).contains(q) ==> defining_prefix(
                p,
                n,
            ).contains(q),
    decreases n,
{
    let d = defining_prefix(p, n);
    if n == 0 {
        assert(d[0] == p.start);
    } else {
        let prev = defining_prefix(p, (n - 1) as nat);
        prefix_points_defining(p, (n - 1) as nat);
        let j = choose|j: int| 0 <= j < prev.len() && prev[j] == p.start;
        assert(d[j] == prev[j]);
        assert forall|k: int, q: Point|
            0 <= k < n && #[trigger] seg_points(p.segs[k]).contains(q) implies d.contains(q) by {
            let sp = seg_points(p.segs[k]);
            if k == n - 1 {
                let i = choose|i: int| 0 <= i < sp.len() && sp[i] == q;
                assert(d[prev.len() + i] == sp[i]);
            } else {
                assert(prev.contains(q));
                let i = choose|i: int| 0 <= i < prev.len() && prev[i] == q;
                assert(d[i] == prev[i]);
            }
        }
    }
}

// ---------------------------------------------------------------------------
// Laws.
// ---------------------------------------------------------------------------

/// A flattened edge ends where the edge ends, exactly.
pub proof fn edge_points_end(from: Point, s: Seg, tol: int)
    ensures
        edge_points(from, s, tol).len() > 0,
        edge_points(from, s, tol).last() == seg_end(s),
{
    let tol2 = used_tol(tol) * used_tol(tol);
    match s {
        Seg::Line { end } => {},
        Seg::Arc { mid, end } => {
            if circum(from, mid, end).2 != 0 {
                sub_arc_end(mid, end, circle_of(from, mid, end, tol), 0);
            }
        },
        Seg::Quadratic { ctrl, end } => quad_points_end(from, ctrl, end, tol2, 0),
        Seg::Cubic { c1, c2, end } => cubic_points_end(from, c1, c2, end, tol2, 0),
    }
}

/// A flattened sub-arc ends where the sub-arc ends.
pub proof fn sub_arc_end(p: Point, q: Point, c: Circle, depth: nat)
    ensures
        sub_arc(p, q, c, depth).len() > 0,
        sub_arc(p, q, c, depth).last() == q,
    decreases MAX_ARC_DEPTH - depth,
{
    if depth < MAX_ARC_DEPTH {
        match arc_apex(p, q, c) {
            None => {},
            Some(m) => sub_arc_end(m, q, c, depth + 1),
        }
    }
}

/// A flattened quadratic ends where the curve ends.
pub proof fn quad_points_end(p0: Point, c: Point, p2: Point, tol2: int, depth: nat)
    ensures
        quad_points(p0, c, p2, tol2, depth).len() > 0,
        quad_points(p0, c, p2, tol2, depth).last() == p2,
    decreases MAX_BEZIER_DEPTH - depth,
{
    if depth < MAX_BEZIER_DEPTH && !seg::point_within(c, p0, p2, tol2) {
        let p01 = mid_of(p0, c);
        let p12 = mid_of(c, p2);
        quad_points_end(mid_of(p01, p12), p12, p2, tol2, depth + 1);
    }
}

/// A flattened cubic ends where the curve ends.
pub proof fn cubic_points_end(p0: Point, c1: Point, c2: Point, p3: Point, tol2: int, depth: nat)
    ensures
        cubic_points(p0, c1, c2, p3, tol2, depth).len() > 0,
        cubic_points(p0, c1, c2, p3, tol2, depth).last() == p3,
    decreases MAX_BEZIER_DEPTH - depth,
{
    if depth < MAX_BEZIER_DEPTH && !(seg::point_within(c1, p0, p3, tol2) && seg::point_within(
        c2,
        p0,
        p3,
        tol2,
    )) {
        let p01 = mid_of(p0, c1);
        let p12 = mid_of(c1, c2);
        let p23 = mid_of(c2, p3);
        let p012 = mid_of(p01, p12);
        let p123 = mid_of(p12, p23);
        cubic_points_end(mid_of(p012, p123), p123, p23, p3, tol2, depth + 1);
    }
}

/// Flattening keeps the ends: the polyline runs from the path's start to its last
/// corner, both exact lattice points.
pub proof fn flat_keeps_ends(p: PathV, tol: int)
    ensures
        flat(p, tol).len() > 0,
        flat(p, tol).first() == p.start,
        flat(p, tol).last() == path_at(p, p.segs.len() as int),
{
    flat_prefix_ends(p, tol, p.segs.len());
}

proof fn flat_prefix_ends(p: PathV, tol: int, k: nat)
    requires
        k <= p.segs.len(),
    ensures
        flat_prefix(p, tol, k).len() > 0,
        flat_prefix(p, tol, k).first() == p.start,
        flat_prefix(p, tol, k).last() == path_at(p, k as int),
    decreases k,
{
    if k > 0 {
        flat_prefix_ends(p, tol, (k - 1) as nat);
        edge_points_end(path_at(p, k - 1), p.segs[k - 1], tol);
    }
}

/// Every corner of a path is a vertex of its polyline.
pub proof fn flat_keeps_corners(p: PathV, tol: int, i: int)
    requires
        0 <= i <= p.segs.len(),
    ensures
        flat(p, tol).contains(corners_of(p)[i]),
{
    flat_prefix_corner(p, tol, p.segs.len(), i);
}

proof fn flat_prefix_corner(p: PathV, tol: int, k: nat, i: int)
    requires
        0 <= i <= k <= p.segs.len(),
    ensures
        flat_prefix(p, tol, k).contains(corners_of(p)[i]),
    decreases k,
{
    let f = flat_prefix(p, tol, k);
    flat_prefix_ends(p, tol, k);
    if i == k {
        assert(f[f.len() - 1] == corners_of(p)[i]);
    } else {
        let prev = flat_prefix(p, tol, (k - 1) as nat);
        flat_prefix_corner(p, tol, (k - 1) as nat, i);
        let j = choose|j: int| 0 <= j < prev.len() && prev[j] == corners_of(p)[i];
        assert(f[j] == prev[j]);
    }
}

/// A path of straight edges flattens to its corners.
pub proof fn straight_path_is_its_corners(p: PathV, tol: int)
    requires
        forall|i: int| 0 <= i < p.segs.len() ==> (#[trigger] p.segs[i]) is Line,
    ensures
        flat(p, tol) == corners_of(p),
{
    straight_prefix(p, tol, p.segs.len());
    assert(flat(p, tol) =~= corners_of(p));
}

proof fn straight_prefix(p: PathV, tol: int, k: nat)
    requires
        k <= p.segs.len(),
        forall|i: int| 0 <= i < p.segs.len() ==> (#[trigger] p.segs[i]) is Line,
    ensures
        flat_prefix(p, tol, k) == corners_of(p).take(k as int + 1),
    decreases k,
{
    if k == 0 {
        assert(flat_prefix(p, tol, 0) =~= corners_of(p).take(1));
    } else {
        straight_prefix(p, tol, (k - 1) as nat);
        assert(p.segs[k - 1] is Line);
        assert(flat_prefix(p, tol, k) =~= corners_of(p).take(k as int + 1));
    }
}

/// A path of kernel-safe straight and Bézier edges flattens to kernel-safe points: every
/// subdivision point stays inside the control hull.
pub proof fn bezier_path_stays_safe(p: PathV, tol: int)
    requires
        path_safe(p),
        forall|i: int| 0 <= i < p.segs.len() ==> !((#[trigger] p.segs[i]) is Arc),
    ensures
        limits::all_safe(flat(p, tol)),
{
    bezier_prefix_safe(p, tol, p.segs.len());
}

proof fn bezier_prefix_safe(p: PathV, tol: int, k: nat)
    requires
        k <= p.segs.len(),
        path_safe(p),
        forall|i: int| 0 <= i < p.segs.len() ==> !((#[trigger] p.segs[i]) is Arc),
    ensures
        limits::all_safe(flat_prefix(p, tol, k)),
        limits::pt_safe(path_at(p, k as int)),
    decreases k,
{
    if k > 0 {
        bezier_prefix_safe(p, tol, (k - 1) as nat);
        let s = p.segs[k - 1];
        let sp = seg_points(s);
        assert(limits::all_safe(sp));
        assert(limits::pt_safe(sp[0]) && limits::pt_safe(sp[sp.len() - 1]));
        if sp.len() > 1 {
            assert(limits::pt_safe(sp[1]));
        }
        let from = path_at(p, k - 1);
        let tol2 = used_tol(tol) * used_tol(tol);
        match s {
            Seg::Line { end } => {},
            Seg::Arc { mid, end } => {},
            Seg::Quadratic { ctrl, end } => quad_points_safe(from, ctrl, end, tol2, 0),
            Seg::Cubic { c1, c2, end } => cubic_points_safe(from, c1, c2, end, tol2, 0),
        }
    }
}

proof fn quad_points_safe(p0: Point, c: Point, p2: Point, tol2: int, depth: nat)
    requires
        limits::pt_safe(p0),
        limits::pt_safe(c),
        limits::pt_safe(p2),
    ensures
        limits::all_safe(quad_points(p0, c, p2, tol2, depth)),
    decreases MAX_BEZIER_DEPTH - depth,
{
    if depth < MAX_BEZIER_DEPTH && !seg::point_within(c, p0, p2, tol2) {
        let p01 = mid_of(p0, c);
        let p12 = mid_of(c, p2);
        let m = mid_of(p01, p12);
        quad_points_safe(p0, p01, m, tol2, depth + 1);
        quad_points_safe(m, p12, p2, tol2, depth + 1);
    }
}

proof fn cubic_points_safe(p0: Point, c1: Point, c2: Point, p3: Point, tol2: int, depth: nat)
    requires
        limits::pt_safe(p0),
        limits::pt_safe(c1),
        limits::pt_safe(c2),
        limits::pt_safe(p3),
    ensures
        limits::all_safe(cubic_points(p0, c1, c2, p3, tol2, depth)),
    decreases MAX_BEZIER_DEPTH - depth,
{
    if depth < MAX_BEZIER_DEPTH && !(seg::point_within(c1, p0, p3, tol2) && seg::point_within(
        c2,
        p0,
        p3,
        tol2,
    )) {
        let p01 = mid_of(p0, c1);
        let p12 = mid_of(c1, c2);
        let p23 = mid_of(c2, p3);
        let p012 = mid_of(p01, p12);
        let p123 = mid_of(p12, p23);
        let m = mid_of(p012, p123);
        cubic_points_safe(p0, p01, p012, m, tol2, depth + 1);
        cubic_points_safe(m, p123, p23, p3, tol2, depth + 1);
    }
}

/// The circumcentre lies on the perpendicular bisectors of both chords, so it is equally
/// far from the three points: `2·u·(b − a) = den·(|b|² − |a|²)`, and the same for `c`.
pub proof fn circumcenter_is_equidistant(a: Point, b: Point, c: Point)
    ensures
        ({
            let (ux, uy, den) = circum(a, b, c);
            let a2 = seg::norm2(a.x as int, a.y as int);
            let b2 = seg::norm2(b.x as int, b.y as int);
            let c2 = seg::norm2(c.x as int, c.y as int);
            &&& 2 * (ux * (b.x - a.x) + uy * (b.y - a.y)) == den * (b2 - a2)
            &&& 2 * (ux * (c.x - a.x) + uy * (c.y - a.y)) == den * (c2 - a2)
        }),
{
    let (ux, uy, den) = circum(a, b, c);
    let (ax, ay, bx, by, cx, cy) = (
        a.x as int,
        a.y as int,
        b.x as int,
        b.y as int,
        c.x as int,
        c.y as int,
    );
    let a2 = seg::norm2(ax, ay);
    let b2 = seg::norm2(bx, by);
    let c2 = seg::norm2(cx, cy);
    bisector(ax, ay, bx, by, cx, cy, a2, b2, c2);
    // The same identity with `b` and `c` exchanged, which negates all three numbers.
    bisector(ax, ay, cx, cy, bx, by, a2, c2, b2);
    let u2 = a2 * (cy - by) + c2 * (by - ay) + b2 * (ay - cy);
    let v2 = a2 * (bx - cx) + c2 * (ax - bx) + b2 * (cx - ax);
    let d2 = ax * (cy - by) + cx * (by - ay) + bx * (ay - cy);
    assert(a2 * (cy - by) == -(a2 * (by - cy)) && c2 * (by - ay) == -(c2 * (ay - by)) && b2 * (ay
        - cy) == -(b2 * (cy - ay))) by (nonlinear_arith);
    assert(a2 * (bx - cx) == -(a2 * (cx - bx)) && c2 * (ax - bx) == -(c2 * (bx - ax)) && b2 * (cx
        - ax) == -(b2 * (ax - cx))) by (nonlinear_arith);
    assert(ax * (cy - by) == -(ax * (by - cy)) && cx * (by - ay) == -(cx * (ay - by)) && bx * (ay
        - cy) == -(bx * (cy - ay))) by (nonlinear_arith);
    assert(u2 == -ux && v2 == -uy && 2 * d2 == -den);
    let (p, q, e) = (cx - ax, cy - ay, c2 - a2);
    assert((-ux) * p == -(ux * p) && (-uy) * q == -(uy * q)) by (nonlinear_arith);
    assert(2 * (d2 * e) == -(den * e)) by (nonlinear_arith)
        requires
            2 * d2 == -den,
    ;
    let (s, f) = (bx - ax, by - ay);
    let d1 = ax * (by - cy) + bx * (cy - ay) + cx * (ay - by);
    assert(2 * (d1 * (b2 - a2)) == den * (b2 - a2)) by (nonlinear_arith)
        requires
            2 * d1 == den,
    ;
}

proof fn spread_three(a: int, b: int, c: int, x: int, y: int, z: int, p: int)
    ensures
        (a * x + b * y + c * z) * p == a * (x * p) + b * (y * p) + c * (z * p),
{
    let (u, v, w) = (a * x, b * y, c * z);
    assert((u + v + w) * p == u * p + v * p + w * p) by (nonlinear_arith);
    assert((a * x) * p == a * (x * p)) by (nonlinear_arith);
    assert((b * y) * p == b * (y * p)) by (nonlinear_arith);
    assert((c * z) * p == c * (z * p)) by (nonlinear_arith);
}

proof fn bisector(
    ax: int,
    ay: int,
    bx: int,
    by: int,
    cx: int,
    cy: int,
    a2: int,
    b2: int,
    c2: int,
)
    ensures
        (a2 * (by - cy) + b2 * (cy - ay) + c2 * (ay - by)) * (bx - ax) + (a2 * (cx - bx) + b2 * (ax
            - cx) + c2 * (bx - ax)) * (by - ay) == (ax * (by - cy) + bx * (cy - ay) + cx * (ay
            - by)) * (b2 - a2),
{
    let (p, q) = (bx - ax, by - ay);
    let d = ax * (by - cy) + bx * (cy - ay) + cx * (ay - by);
    let ca = (by - cy) * p + (cx - bx) * q;
    let cb = (cy - ay) * p + (ax - cx) * q;
    let cc = (ay - by) * p + p * q;
    assert(ca == -d) by (nonlinear_arith)
        requires
            ca == (by - cy) * (bx - ax) + (cx - bx) * (by - ay),
            d == ax * (by - cy) + bx * (cy - ay) + cx * (ay - by),
    ;
    assert(cb == d) by (nonlinear_arith)
        requires
            cb == (cy - ay) * (bx - ax) + (ax - cx) * (by - ay),
            d == ax * (by - cy) + bx * (cy - ay) + cx * (ay - by),
    ;
    assert(cc == 0) by (nonlinear_arith)
        requires
            cc == (ay - by) * p + p * q,
            q == by - ay,
    ;
    let (x1, x2, x3) = (by - cy, cy - ay, ay - by);
    let (y1, y2, y3) = (cx - bx, ax - cx, p);
    spread_three(a2, b2, c2, x1, x2, x3, p);
    spread_three(a2, b2, c2, y1, y2, y3, q);
    assert(a2 * (x1 * p) + a2 * (y1 * q) == a2 * ca) by (nonlinear_arith)
        requires
            ca == x1 * p + y1 * q,
    ;
    assert(b2 * (x2 * p) + b2 * (y2 * q) == b2 * cb) by (nonlinear_arith)
        requires
            cb == x2 * p + y2 * q,
    ;
    assert(c2 * (x3 * p) + c2 * (y3 * q) == c2 * cc) by (nonlinear_arith)
        requires
            cc == x3 * p + y3 * q,
    ;
    assert(a2 * ca + b2 * cb + c2 * cc == d * (b2 - a2)) by (nonlinear_arith)
        requires
            ca == -d,
            cb == d,
            cc == 0,
    ;
}

} // verus!
