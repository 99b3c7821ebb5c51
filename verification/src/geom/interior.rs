//! Whether shapes reach into each other, or only touch.

use super::clearance;
use super::clearance::{closer_than, skeletons_overlap};
use super::limits;
use super::halfplane;
use super::path;
use super::path::MAX_TOL;
use super::polygon;
use super::polygon::point_in_polygon;
use super::polygon::Region;
use super::seg;
use super::seg::orient;
use super::shape;
use super::shape::{Shape2D, ShapeV};
use crate::coord::{Nm, Point};
use vstd::arithmetic::mul::*;
use vstd::prelude::*;

verus! {

/// The longest ring whose corners are averaged.
pub const MAX_RING: usize = 1_000_000_000;

/// No corner is to the right of the line from `a` to `b`.
pub open spec fn all_left(r: Seq<Point>, a: Point, b: Point) -> bool {
    forall|j: int| 0 <= j < r.len() ==> seg::cross(a, b, #[trigger] r[j]) >= 0
}

/// No corner is to the left of the line from `a` to `b`.
pub open spec fn all_right(r: Seq<Point>, a: Point, b: Point) -> bool {
    forall|j: int| 0 <= j < r.len() ==> seg::cross(a, b, #[trigger] r[j]) <= 0
}

/// The end of edge `i`.
pub open spec fn tip(r: Seq<Point>, i: int) -> Point {
    r[polygon::next(i, r.len() as int)]
}

/// The ring keeps to the left of all its edges.
pub open spec fn turns_left(r: Seq<Point>) -> bool {
    forall|i: int| 0 <= i < r.len() ==> all_left(r, #[trigger] r[i], tip(r, i))
}

/// The ring keeps to the right of all its edges.
pub open spec fn turns_right(r: Seq<Point>) -> bool {
    forall|i: int| 0 <= i < r.len() ==> all_right(r, #[trigger] r[i], tip(r, i))
}

/// The ring bounds a convex polygon, and not just a line.
pub open spec fn convex(r: Seq<Point>) -> bool {
    &&& 3 <= r.len() <= MAX_RING
    &&& turns_left(r) != turns_right(r)
}

/// Is `p` on the inner side of edge `i` of a convex ring, and not on its line?
pub open spec fn inner(r: Seq<Point>, i: int, p: Point) -> bool {
    if turns_left(r) {
        seg::cross(r[i], tip(r, i), p) > 0
    } else {
        seg::cross(r[i], tip(r, i), p) < 0
    }
}

/// Does edge `i` of a convex ring part the segment `u`–`v` from it?
pub open spec fn parted_by(r: Seq<Point>, i: int, u: Point, v: Point) -> bool {
    r[i] != tip(r, i) && !inner(r, i, u) && !inner(r, i, v)
}

/// Does the segment `u`–`v` pass through the inside of a convex ring? It does not where the
/// line of an edge, or its own, parts the two; they may touch.
pub open spec fn enters(u: Point, v: Point, r: Seq<Point>) -> bool {
    &&& forall|i: int| 0 <= i < r.len() ==> !#[trigger] parted_by(r, i, u, v)
    &&& u == v || !(all_left(r, u, v) || all_right(r, u, v))
}

/// Does some edge pass through the inside of a convex ring?
pub open spec fn some_enter(es: Seq<(Point, Point)>, r: Seq<Point>) -> bool {
    exists|i: int| 0 <= i < es.len() && enters((#[trigger] es[i]).0, es[i].1, r)
}

/// The sum of the first `k` corners.
pub open spec fn corner_sum(r: Seq<Point>, k: nat) -> (int, int)
    decreases k,
{
    if k == 0 {
        (0, 0)
    } else {
        let (x, y) = corner_sum(r, (k - 1) as nat);
        (x + r[k - 1].x, y + r[k - 1].y)
    }
}

/// The mean of the corners, times their number: it is inside a convex ring.
pub open spec fn middle(r: Seq<Point>) -> Point {
    let (x, y) = corner_sum(r, r.len());
    Point { x: x as i64, y: y as i64 }
}

/// A ring with every coordinate `n` times as large.
pub open spec fn enlarged(r: Seq<Point>, n: int) -> Seq<Point> {
    Seq::new(r.len(), |i: int| Point { x: (n * r[i].x) as i64, y: (n * r[i].y) as i64 })
}

/// Rings with every coordinate `n` times as large.
pub open spec fn all_enlarged(rings: Seq<Seq<Point>>, n: int) -> Seq<Seq<Point>> {
    Seq::new(rings.len(), |i: int| enlarged(rings[i], n))
}

/// Is the middle of a convex ring in the filled area of `s`?
pub open spec fn around(s: ShapeV, r: Seq<Point>) -> bool {
    let n = r.len() as int;
    match s {
        ShapeV::Stroke { .. } => false,
        ShapeV::Polygon { .. } => polygon::in_polygon(middle(r), enlarged(shape::skeleton(s), n)),
        ShapeV::Area { rings } => polygon::in_region(middle(r), all_enlarged(rings, n)),
    }
}

/// Does `s` share more than boundary with the convex polygon of `r`? Either an edge passes
/// through the inside, or the whole inside is in `s`.
pub open spec fn reaches_into(s: ShapeV, r: Seq<Point>) -> bool {
    some_enter(shape::edges(s), r) || around(s, r)
}

/// The shape is a convex polygon.
pub open spec fn is_convex(s: ShapeV) -> bool {
    s is Polygon && convex(shape::skeleton(s))
}

/// The triangle of three corners.
pub open spec fn triangle(v: Seq<Point>, i: int, j: int, k: int) -> Seq<Point> {
    seq![v[i], v[j], v[k]]
}

/// The triangle lies in the filled area of `s`: no edge passes through its inside, and its
/// middle is in `s`.
pub open spec fn lies_in(t: Seq<Point>, s: ShapeV) -> bool {
    convex(t) && !some_enter(shape::edges(s), t) && around(s, t)
}

/// `s` reaches into the triangle of three corners of `host`, which lies in `host`.
#[verifier::opaque]
pub open spec fn reaches_triangle(s: ShapeV, host: ShapeV, i: int, j: int, k: int) -> bool {
    let t = triangle(shape::skeleton(host), i, j, k);
    lies_in(t, host) && reaches_into(s, t)
}

/// Does `s` reach into the inside of `host`? Triangles between its corners fill it.
pub open spec fn reaches_inside(s: ShapeV, host: ShapeV) -> bool {
    exists|i: int, j: int, k: int|
        0 <= i < j < k < shape::skeleton(host).len() && #[trigger] reaches_triangle(
            s,
            host,
            i,
            j,
            k,
        )
}

/// Do the insides of two shapes without rounding overlap? They do not where the shapes only
/// touch. A line has no inside and is held against the inside of the other shape.
pub open spec fn insides_meet(a: ShapeV, b: ShapeV) -> bool {
    clearance::overlap(a, b) && if is_convex(b) {
        reaches_into(a, shape::skeleton(b))
    } else if is_convex(a) {
        reaches_into(b, shape::skeleton(a))
    } else if b is Stroke {
        reaches_inside(b, a)
    } else {
        reaches_inside(a, b)
    }
}

/// Does a shape come nearer to a region than `clr`? At zero it has to overlap the region:
/// touching it is not enough.
pub open spec fn intrudes(a: ShapeV, region: ShapeV, clr: int) -> bool {
    if clr <= 0 && shape::radius_of(a) == 0 && shape::radius_of(region) == 0 {
        insides_meet(a, region)
    } else {
        clearance::closer(a, region, clr)
    }
}

// ---------------------------------------------------------------------------
// Deciding it.
// ---------------------------------------------------------------------------

/// Whether all corners are to one side of the line from `a` to `b`: to the left, and to the
/// right.
fn sides_of(r: &Vec<Point>, a: Point, b: Point) -> (s: (bool, bool))
    requires
        limits::all_safe(r@),
        limits::pt_safe(a),
        limits::pt_safe(b),
    ensures
        s.0 == all_left(r@, a, b),
        s.1 == all_right(r@, a, b),
{
    let mut left = true;
    let mut right = true;
    let mut j: usize = 0;
    while j < r.len()
        invariant
            j <= r.len(),
            limits::all_safe(r@),
            limits::pt_safe(a),
            limits::pt_safe(b),
            left == (forall|k: int| 0 <= k < j ==> seg::cross(a, b, #[trigger] r@[k]) >= 0),
            right == (forall|k: int| 0 <= k < j ==> seg::cross(a, b, #[trigger] r@[k]) <= 0),
        decreases r.len() - j,
    {
        assert(limits::pt_safe(r@[j as int]));
        let o = orient(a, b, r[j]);
        if o < 0 {
            left = false;
        }
        if o > 0 {
            right = false;
        }
        j += 1;
    }
    (left, right)
}

/// Which way a ring turns, if all its corners keep to that side: left, and right.
fn turns_of(r: &Vec<Point>) -> (s: (bool, bool))
    requires
        limits::all_safe(r@),
    ensures
        s.0 == turns_left(r@),
        s.1 == turns_right(r@),
{
    let n = r.len();
    let mut left = true;
    let mut right = true;
    let mut i: usize = 0;
    while i < n
        invariant
            n == r.len(),
            i <= n,
            limits::all_safe(r@),
            left == (forall|k: int| 0 <= k < i ==> all_left(r@, #[trigger] r@[k], tip(r@, k))),
            right == (forall|k: int| 0 <= k < i ==> all_right(r@, #[trigger] r@[k], tip(r@, k))),
        decreases n - i,
    {
        let b = if i + 1 == n {
            r[0]
        } else {
            r[i + 1]
        };
        proof {
            assert(limits::pt_safe(r@[i as int]));
            assert(limits::pt_safe(r@[polygon::next(i as int, n as int)]));
            assert(b == tip(r@, i as int));
        }
        let (l, m) = sides_of(r, r[i], b);
        left = left && l;
        right = right && m;
        i += 1;
    }
    (left, right)
}

/// Is the ring convex, and does it turn left?
fn convexity(r: &Vec<Point>) -> (s: Option<bool>)
    requires
        limits::all_safe(r@),
    ensures
        s is Some == convex(r@),
        s matches Some(left) ==> left == turns_left(r@),
{
    if r.len() < 3 || r.len() > MAX_RING {
        return None;
    }
    let (left, right) = turns_of(r);
    if left != right {
        Some(left)
    } else {
        None
    }
}

fn passes_through(u: Point, v: Point, r: &Vec<Point>, left: bool) -> (s: bool)
    requires
        limits::all_safe(r@),
        limits::pt_safe(u),
        limits::pt_safe(v),
        left == turns_left(r@),
    ensures
        s == enters(u, v, r@),
{
    let n = r.len();
    let mut i: usize = 0;
    while i < n
        invariant
            n == r.len(),
            i <= n,
            limits::all_safe(r@),
            limits::pt_safe(u),
            limits::pt_safe(v),
            left == turns_left(r@),
            forall|k: int| 0 <= k < i ==> !#[trigger] parted_by(r@, k, u, v),
        decreases n - i,
    {
        let a = r[i];
        let b = if i + 1 == n {
            r[0]
        } else {
            r[i + 1]
        };
        proof {
            assert(limits::pt_safe(r@[i as int]));
            assert(limits::pt_safe(r@[polygon::next(i as int, n as int)]));
            assert(b == tip(r@, i as int));
        }
        if a.x != b.x || a.y != b.y {
            let want: i32 = if left {
                1
            } else {
                -1
            };
            if orient(a, b, u) != want && orient(a, b, v) != want {
                assert(parted_by(r@, i as int, u, v));
                return false;
            }
        }
        i += 1;
    }
    if u.x == v.x && u.y == v.y {
        return true;
    }
    let (l, m) = sides_of(r, u, v);
    !(l || m)
}

fn enlarge(r: &Vec<Point>, n: Nm) -> (s: Vec<Point>)
    requires
        limits::all_safe(r@),
        0 <= n <= MAX_RING,
    ensures
        s@ == enlarged(r@, n as int),
        limits::all_exact(s@),
{
    let mut out: Vec<Point> = Vec::new();
    let mut i: usize = 0;
    while i < r.len()
        invariant
            i <= r.len(),
            limits::all_safe(r@),
            0 <= n <= MAX_RING,
            out.len() == i,
            forall|k: int| 0 <= k < i ==> #[trigger] out@[k] == enlarged(r@, n as int)[k],
            limits::all_exact(out@),
        decreases r.len() - i,
    {
        let p = r[i];
        proof {
            assert(limits::pt_safe(r@[i as int]));
            times_fits(n as int, p.x as int);
            times_fits(n as int, p.y as int);
        }
        out.push(Point { x: n * p.x, y: n * p.y });
        i += 1;
    }
    assert(out@ =~= enlarged(r@, n as int));
    out
}

proof fn times_fits(n: int, x: int)
    requires
        0 <= n <= MAX_RING,
        limits::in_kernel(x),
    ensures
        -1_276_000_000_000_000_000 <= n * x <= 1_276_000_000_000_000_000,
{
    assert(-1_276_000_000_000_000_000 <= n * x <= 1_276_000_000_000_000_000) by (nonlinear_arith)
        requires
            0 <= n <= 1_000_000_000,
            -1_276_000_000 <= x <= 1_276_000_000,
    ;
}

fn middle_of(r: &Vec<Point>) -> (p: Point)
    requires
        limits::all_safe(r@),
        r.len() <= MAX_RING,
    ensures
        p == middle(r@),
        limits::pt_exact(p),
{
    let (mut x, mut y): (i64, i64) = (0, 0);
    let mut i: usize = 0;
    while i < r.len()
        invariant
            i <= r.len(),
            r.len() <= MAX_RING,
            limits::all_safe(r@),
            corner_sum(r@, i as nat) == (x as int, y as int),
            -(i * 1_276_000_000) <= x <= i * 1_276_000_000,
            -(i * 1_276_000_000) <= y <= i * 1_276_000_000,
        decreases r.len() - i,
    {
        assert(limits::pt_safe(r@[i as int]));
        x = x + r[i].x;
        y = y + r[i].y;
        i += 1;
    }
    Point { x, y }
}

fn encloses(s: &Shape2D, r: &Vec<Point>) -> (b: bool)
    requires
        shape::measurable(s@),
        limits::all_safe(r@),
        r.len() <= MAX_RING,
    ensures
        b == around(s@, r@),
{
    let n: Nm = r.len() as i64;
    let m = middle_of(r);
    match s {
        Shape2D::Stroke { .. } => false,
        Shape2D::Polygon { .. } => {
            let pts = s.skeleton_points();
            let big = enlarge(&pts, n);
            point_in_polygon(m, &big)
        },
        Shape2D::Area { region } => {
            let mut rings: Vec<Vec<Point>> = Vec::new();
            let mut i: usize = 0;
            while i < region.rings.len()
                invariant
                    i <= region.rings.len(),
                    polygon::rings_safe(region@),
                    0 <= n <= MAX_RING,
                    rings.len() == i,
                    forall|k: int|
                        0 <= k < i ==> (#[trigger] rings@[k])@ == enlarged(region@[k], n as int)
                            && limits::all_exact(rings@[k]@),
                decreases region.rings.len() - i,
            {
                assert(region@[i as int] == region.rings@[i as int]@);
                assert(limits::all_safe(region@[i as int]));
                rings.push(enlarge(&region.rings[i], n));
                i += 1;
            }
            let big = Region { rings };
            assert(big@ =~= all_enlarged(region@, n as int));
            assert forall|k: int| 0 <= k < big@.len() implies limits::all_exact(
                #[trigger] big@[k],
            ) by {
                assert(big@[k] == big.rings@[k]@);
            }
            big.contains_point(m)
        },
    }
}

fn any_passes(s: &Shape2D, r: &Vec<Point>, left: bool) -> (b: bool)
    requires
        shape::measurable(s@),
        limits::all_safe(r@),
        left == turns_left(r@),
    ensures
        b == some_enter(shape::edges(s@), r@),
{
    let es = s.segments();
    proof {
        clearance::edges_are_safe(s@);
    }
    let mut i: usize = 0;
    while i < es.len()
        invariant
            i <= es.len(),
            es@ == shape::edges(s@),
            limits::all_safe(r@),
            left == turns_left(r@),
            forall|k: int|
                #![trigger shape::edges(s@)[k]]
                0 <= k < es.len() ==> limits::pt_safe(shape::edges(s@)[k].0) && limits::pt_safe(
                    shape::edges(s@)[k].1,
                ),
            forall|k: int| 0 <= k < i ==> !enters((#[trigger] es@[k]).0, es@[k].1, r@),
        decreases es.len() - i,
    {
        let (u, v) = es[i];
        assert(shape::edges(s@)[i as int] == (u, v));
        if passes_through(u, v, r, left) {
            assert(enters(es@[i as int].0, es@[i as int].1, r@));
            return true;
        }
        i += 1;
    }
    false
}

fn is_inside(s: &Shape2D, r: &Vec<Point>, left: bool) -> (b: bool)
    requires
        shape::measurable(s@),
        limits::all_safe(r@),
        r.len() <= MAX_RING,
        left == turns_left(r@),
    ensures
        b == reaches_into(s@, r@),
{
    any_passes(s, r, left) || encloses(s, r)
}

/// The corners of a convex polygon, and whether they turn left.
fn convex_corners(s: &Shape2D) -> (r: Option<(Vec<Point>, bool)>)
    requires
        shape::measurable(s@),
    ensures
        r is Some == is_convex(s@),
        r matches Some((v, left)) ==> v@ == shape::skeleton(s@) && left == turns_left(v@),
{
    match s {
        Shape2D::Polygon { .. } => {
            let pts = s.skeleton_points();
            match convexity(&pts) {
                Some(left) => Some((pts, left)),
                None => None,
            }
        },
        _ => None,
    }
}

fn reaches_corners(
    s: &Shape2D,
    host: &Shape2D,
    v: &Vec<Point>,
    i: usize,
    j: usize,
    k: usize,
) -> (b: bool)
    requires
        shape::measurable(s@),
        shape::measurable(host@),
        v@ == shape::skeleton(host@),
        i < j < k < v.len(),
    ensures
        b == reaches_triangle(s@, host@, i as int, j as int, k as int),
{
    let t = vec![v[i], v[j], v[k]];
    proof {
        reveal(reaches_triangle);
        assert(t@ =~= triangle(v@, i as int, j as int, k as int));
        assert(limits::pt_safe(v@[i as int]));
        assert(limits::pt_safe(v@[j as int]));
        assert(limits::pt_safe(v@[k as int]));
    }
    match convexity(&t) {
        None => false,
        Some(left) => !any_passes(host, &t, left) && encloses(host, &t) && is_inside(s, &t, left),
    }
}

fn fills(s: &Shape2D, host: &Shape2D) -> (b: bool)
    requires
        shape::measurable(s@),
        shape::measurable(host@),
    ensures
        b == reaches_inside(s@, host@),
{
    let v = host.skeleton_points();
    let n = v.len();
    let mut i: usize = 0;
    while i < n
        invariant
            n == v.len(),
            i <= n,
            v@ == shape::skeleton(host@),
            shape::measurable(s@),
            shape::measurable(host@),
            forall|x: int, y: int, z: int|
                0 <= x < i && x < y < z < n ==> !#[trigger] reaches_triangle(s@, host@, x, y, z),
        decreases n - i,
    {
        let mut j: usize = i + 1;
        while j < n
            invariant
                n == v.len(),
                i < n,
                i < j <= n,
                v@ == shape::skeleton(host@),
                shape::measurable(s@),
                shape::measurable(host@),
                forall|y: int, z: int|
                    i < y < j && y < z < n ==> !#[trigger] reaches_triangle(
                        s@,
                        host@,
                        i as int,
                        y,
                        z,
                    ),
            decreases n - j,
        {
            let mut k: usize = j + 1;
            while k < n
                invariant
                    n == v.len(),
                    i < j < n,
                    j < k <= n,
                    v@ == shape::skeleton(host@),
                    shape::measurable(s@),
                    shape::measurable(host@),
                    forall|z: int|
                        j < z < k ==> !#[trigger] reaches_triangle(
                            s@,
                            host@,
                            i as int,
                            j as int,
                            z,
                        ),
                decreases n - k,
            {
                if reaches_corners(s, host, &v, i, j, k) {
                    return true;
                }
                k += 1;
            }
            j += 1;
        }
        i += 1;
    }
    false
}

/// Do the insides of two shapes without rounding overlap?
pub fn insides_overlap(a: &Shape2D, b: &Shape2D) -> (r: bool)
    requires
        shape::measurable(a@),
        shape::measurable(b@),
    ensures
        r == insides_meet(a@, b@),
{
    if !skeletons_overlap(a, b) {
        return false;
    }
    if let Some((v, left)) = convex_corners(b) {
        return is_inside(a, &v, left);
    }
    if let Some((v, left)) = convex_corners(a) {
        return is_inside(b, &v, left);
    }
    match b {
        Shape2D::Stroke { .. } => fills(b, a),
        _ => fills(a, b),
    }
}

/// Does `a` come nearer to the region than `clr`, or, at zero, overlap it?
pub fn intrudes_on(a: &Shape2D, region: &Shape2D, clr: Nm) -> (r: bool)
    requires
        shape::measurable(a@),
        shape::measurable(region@),
        limits::in_kernel(clr as int),
        clr + shape::radius_of(a@) + shape::radius_of(region@) <= MAX_TOL,
    ensures
        r == intrudes(a@, region@, clr as int),
{
    if clr <= 0 && a.radius() == 0 && region.radius() == 0 {
        insides_overlap(a, region)
    } else {
        closer_than(a, region, clr)
    }
}

// ---------------------------------------------------------------------------
// Laws.
// ---------------------------------------------------------------------------

/// The points of the rings are the vertices of the area.
pub proof fn vertex_is_listed(rings: Seq<Seq<Point>>, k: nat, i: int, j: int)
    requires
        0 <= i < k <= rings.len(),
        0 <= j < rings[i].len(),
    ensures
        polygon::vertices_prefix(rings, k).contains(rings[i][j]),
    decreases k,
{
    let all = polygon::vertices_prefix(rings, k);
    let done = polygon::vertices_prefix(rings, (k - 1) as nat);
    if i == k - 1 {
        assert(all[done.len() + j] == rings[i][j]);
    } else {
        vertex_is_listed(rings, (k - 1) as nat, i, j);
        let m = choose|m: int| 0 <= m < done.len() && done[m] == rings[i][j];
        assert(all[m] == rings[i][j]);
    }
}

/// The ends of the edges are corners.
proof fn edges_join_corners(s: ShapeV, i: int)
    requires
        0 <= i < shape::edges(s).len(),
        !(s is Area) ==> shape::skeleton(s).len() > 0,
    ensures
        shape::skeleton(s).contains(shape::edges(s)[i].0),
        shape::skeleton(s).contains(shape::edges(s)[i].1),
{
    let v = shape::skeleton(s);
    match s {
        ShapeV::Stroke { .. } => {
            if v.len() == 1 {
                assert(v.contains(v[0]));
            } else {
                assert(v.contains(v[i]) && v.contains(v[i + 1]));
            }
        },
        ShapeV::Polygon { .. } => {
            assert(v.contains(v[i]) && v.contains(v[polygon::next(i, v.len() as int)]));
        },
        ShapeV::Area { rings } => {
            ring_edges_join_corners(rings, rings.len(), i);
        },
    }
}

proof fn ring_edges_join_corners(rings: Seq<Seq<Point>>, k: nat, i: int)
    requires
        k <= rings.len(),
        0 <= i < shape::ring_edges(rings, k).len(),
    ensures
        polygon::vertices(rings).contains(shape::ring_edges(rings, k)[i].0),
        polygon::vertices(rings).contains(shape::ring_edges(rings, k)[i].1),
    decreases k,
{
    if k > 0 {
        let prev = shape::ring_edges(rings, (k - 1) as nat);
        let all = shape::ring_edges(rings, k);
        if i < prev.len() {
            ring_edges_join_corners(rings, (k - 1) as nat, i);
            assert(all[i] == prev[i]);
        } else {
            let ring = rings[k - 1];
            let j = i - prev.len();
            assert(all[i] == shape::closed_edges(ring)[j]);
            vertex_is_listed(rings, rings.len(), k - 1, j);
            vertex_is_listed(rings, rings.len(), k - 1, polygon::next(j, ring.len() as int));
        }
    }
}

proof fn heights_add_up(r: Seq<Point>, k: nat, u: int, w: int, c: int)
    requires
        k <= r.len(),
        forall|j: int| 0 <= j < r.len() ==> halfplane::height(u, w, c, #[trigger] r[j]) >= 0,
    ensures
        ({
            let (x, y) = corner_sum(r, k);
            &&& u * x + w * y + k * c >= 0
            &&& forall|j: int|
                0 <= j < k && halfplane::height(u, w, c, #[trigger] r[j]) > 0 ==> u * x + w * y + k * c > 0
        }),
    decreases k,
{
    if k > 0 {
        heights_add_up(r, (k - 1) as nat, u, w, c);
        let (x, y) = corner_sum(r, (k - 1) as nat);
        let p = r[k - 1];
        assert(halfplane::height(u, w, c, r[k - 1]) >= 0);
        lemma_mul_is_distributive_add(u, x, p.x as int);
        lemma_mul_is_distributive_add(w, y, p.y as int);
        lemma_mul_is_distributive_add_other_way(c, k - 1, 1);
    } else {
        assert(u * 0 + w * 0 + 0 * c == 0) by (nonlinear_arith);
    }
}

proof fn corner_sum_fits(r: Seq<Point>, k: nat)
    requires
        k <= r.len() <= MAX_RING,
        limits::all_safe(r),
    ensures
        -(k * 1_276_000_000) <= corner_sum(r, k).0 <= k * 1_276_000_000,
        -(k * 1_276_000_000) <= corner_sum(r, k).1 <= k * 1_276_000_000,
    decreases k,
{
    if k > 0 {
        corner_sum_fits(r, (k - 1) as nat);
        assert(limits::pt_safe(r[k - 1]));
    }
}

/// Some corner of a convex ring is off the line of each of its edges.
proof fn some_corner_is_off(r: Seq<Point>, i: int) -> (j: int)
    requires
        convex(r),
        0 <= i < r.len(),
        r[i] != tip(r, i),
    ensures
        0 <= j < r.len(),
        seg::cross(r[i], tip(r, i), r[j]) != 0,
{
    if forall|j: int| 0 <= j < r.len() ==> seg::cross(r[i], tip(r, i), #[trigger] r[j]) == 0 {
        assert forall|k: int| 0 <= k < r.len() implies all_left(r, #[trigger] r[k], tip(r, k))
            && all_right(r, r[k], tip(r, k)) by {
            assert forall|j: int| 0 <= j < r.len() implies seg::cross(
                r[k],
                tip(r, k),
                #[trigger] r[j],
            ) == 0 by {
                let n = polygon::next(k, r.len() as int);
                assert(seg::cross(r[i], tip(r, i), r[n]) == 0);
                halfplane::collinear(r[i], tip(r, i), r[k], r[n], r[j]);
            }
        }
        assert(false);
    }
    choose|j: int| 0 <= j < r.len() && seg::cross(r[i], tip(r, i), #[trigger] r[j]) != 0
}

/// The line of edge `i` of a convex ring, rising towards the ring.
spec fn edge_line(r: Seq<Point>, i: int) -> (int, int, int) {
    let (p, q) = (r[i], tip(r, i));
    let (u, w) = if turns_left(r) {
        (-(q.y - p.y), q.x - p.x)
    } else {
        (q.y - p.y, -(q.x - p.x))
    };
    (u, w, -(u * p.x + w * p.y))
}

proof fn height_is_the_turn(r: Seq<Point>, i: int, x: Point)
    ensures
        ({
            let (u, w, c) = edge_line(r, i);
            halfplane::height(u, w, c, x) == if turns_left(r) {
                seg::cross(r[i], tip(r, i), x)
            } else {
                -seg::cross(r[i], tip(r, i), x)
            }
        }),
{
    let (p, q) = (r[i], tip(r, i));
    let (u, w, c) = edge_line(r, i);
    lemma_mul_is_distributive_sub(u, x.x as int, p.x as int);
    lemma_mul_is_distributive_sub(w, x.y as int, p.y as int);
    lemma_mul_unary_negation(q.y - p.y, x.x - p.x);
    lemma_mul_unary_negation(q.x - p.x, x.y - p.y);
    assert(halfplane::height(u, w, c, x) == u * (x.x - p.x) + w * (x.y - p.y));
}

/// The middle of a convex ring is on the inner side of each edge.
proof fn middle_is_above(r: Seq<Point>, i: int)
    requires
        convex(r),
        limits::all_safe(r),
        0 <= i < r.len(),
        r[i] != tip(r, i),
    ensures
        ({
            let (u, w, c) = edge_line(r, i);
            halfplane::height(u, w, r.len() * c, middle(r)) > 0
        }),
{
    let (u, w, c) = edge_line(r, i);
    assert(turns_left(r) ==> all_left(r, r[i], tip(r, i)));
    assert(turns_right(r) ==> all_right(r, r[i], tip(r, i)));
    assert forall|j: int| 0 <= j < r.len() implies halfplane::height(
        u,
        w,
        c,
        #[trigger] r[j],
    ) >= 0 by {
        height_is_the_turn(r, i, r[j]);
    }
    let off = some_corner_is_off(r, i);
    height_is_the_turn(r, i, r[off]);
    assert(halfplane::height(u, w, c, r[off]) > 0);
    heights_add_up(r, r.len(), u, w, c);
    corner_sum_fits(r, r.len());
}

/// An enlarged corner that is not on the inner side of an edge stays below its line.
proof fn corner_is_below(r: Seq<Point>, i: int, x: Point)
    requires
        convex(r),
        limits::pt_safe(x),
        !inner(r, i, x),
    ensures
        ({
            let (u, w, c) = edge_line(r, i);
            let n = r.len() as int;
            halfplane::height(
                u,
                w,
                n * c,
                (Point { x: (n * x.x) as i64, y: (n * x.y) as i64 }),
            ) <= 0
        }),
{
    let (u, w, c) = edge_line(r, i);
    let n = r.len() as int;
    let h = halfplane::height(u, w, c, x);
    height_is_the_turn(r, i, x);
    times_fits(n, x.x as int);
    times_fits(n, x.y as int);
    halfplane::spread_out(u, x.x as int, w, x.y as int, c, n);
    lemma_mul_is_commutative(x.x as int, n);
    lemma_mul_is_commutative(x.y as int, n);
    lemma_mul_is_commutative(c, n);
    assert(h * n <= 0) by (nonlinear_arith)
        requires
            n > 0,
            h <= 0,
    ;
}

proof fn beyond_is_not_around(a: ShapeV, r: Seq<Point>, i: int)
    requires
        shape::measurable(a),
        convex(r),
        limits::all_safe(r),
        0 <= i < r.len(),
        r[i] != tip(r, i),
        forall|q: Point| #[trigger] shape::skeleton(a).contains(q) ==> !inner(r, i, q),
    ensures
        !around(a, r),
{
    let v = shape::skeleton(a);
    let (u, w, c) = edge_line(r, i);
    let n = r.len() as int;
    middle_is_above(r, i);
    match a {
        ShapeV::Stroke { .. } => {},
        ShapeV::Polygon { .. } => {
            let big = enlarged(v, n);
            assert forall|j: int| 0 <= j < big.len() implies halfplane::height(
                u,
                w,
                n * c,
                #[trigger] big[j],
            ) <= 0 by {
                assert(v.contains(v[j]));
                corner_is_below(r, i, v[j]);
            }
            halfplane::above_the_ring(middle(r), big, u, w, n * c);
        },
        ShapeV::Area { rings } => {
            let big = all_enlarged(rings, n);
            assert forall|k: int, j: int|
                0 <= k < big.len() && 0 <= j < big[k].len() implies halfplane::height(
                u,
                w,
                n * c,
                #[trigger] big[k][j],
            ) <= 0 by {
                vertex_is_listed(rings, rings.len(), k, j);
                let m = choose|m: int| 0 <= m < v.len() && v[m] == rings[k][j];
                assert(limits::pt_safe(v[m]));
                corner_is_below(r, i, rings[k][j]);
            }
            halfplane::above_all_rings(middle(r), big, big.len(), u, w, n * c);
        },
    }
}

proof fn beyond_is_not_entered(a: ShapeV, r: Seq<Point>, i: int)
    requires
        shape::measurable(a),
        0 <= i < r.len(),
        r[i] != tip(r, i),
        forall|q: Point| #[trigger] shape::skeleton(a).contains(q) ==> !inner(r, i, q),
    ensures
        !some_enter(shape::edges(a), r),
{
    let es = shape::edges(a);
    if !(a is Area) {
        path::flat_keeps_ends(shape::path_of(a), limits::DEFAULT_CHORD_TOL as int);
    }
    assert forall|k: int| 0 <= k < es.len() implies !enters((#[trigger] es[k]).0, es[k].1, r) by {
        edges_join_corners(a, k);
        assert(parted_by(r, i, es[k].0, es[k].1));
    }
}

/// A shape that stays beyond an edge of a convex polygon does not reach into it, though it
/// may touch it or share that edge.
pub proof fn beyond_an_edge_is_outside(a: ShapeV, b: ShapeV, i: int)
    requires
        shape::measurable(a),
        shape::measurable(b),
        is_convex(b),
        0 <= i < shape::skeleton(b).len(),
        shape::skeleton(b)[i] != tip(shape::skeleton(b), i),
        forall|q: Point| #[trigger]
            shape::skeleton(a).contains(q) ==> !inner(shape::skeleton(b), i, q),
    ensures
        !insides_meet(a, b),
{
    beyond_is_not_entered(a, shape::skeleton(b), i);
    beyond_is_not_around(a, shape::skeleton(b), i);
}

} // verus!
