//! Rings of points: shoelace area, the crossing-number test, and regions with holes.

use super::limits;
use super::seg;
use super::seg::{on_seg, orient};
use crate::coord::Point;
use vstd::prelude::*;

verus! {

// ---------------------------------------------------------------------------
// Signed area.
// ---------------------------------------------------------------------------

/// The shoelace term of the edge from `p` to `q`.
pub open spec fn shoelace(p: Point, q: Point) -> int {
    p.x * q.y - q.x * p.y
}

/// The index after `i` around a ring of `n` points.
pub open spec fn next(i: int, n: int) -> int {
    if i + 1 == n {
        0
    } else {
        i + 1
    }
}

/// The shoelace terms of the first `k` edges, summed.
pub open spec fn area2_prefix(ring: Seq<Point>, k: nat) -> int
    decreases k,
{
    if k == 0 {
        0
    } else {
        area2_prefix(ring, (k - 1) as nat) + shoelace(
            ring[k - 1],
            ring[next(k - 1, ring.len() as int)],
        )
    }
}

/// Twice the signed area of a ring: positive when it winds counter-clockwise.
pub open spec fn area2(ring: Seq<Point>) -> int {
    area2_prefix(ring, ring.len())
}

/// Twice the signed area of a ring.
pub fn signed_area2(ring: &Vec<Point>) -> (r: i128)
    requires
        limits::all_safe(ring@),
    ensures
        r == area2(ring@),
        r > i128::MIN,
{
    let n = ring.len();
    let mut sum: i128 = 0;
    let mut i: usize = 0;
    while i < n
        invariant
            n == ring.len(),
            i <= n,
            limits::all_safe(ring@),
            sum == area2_prefix(ring@, i as nat),
            -(i * 3_256_352_000_000_000_000) <= sum <= i * 3_256_352_000_000_000_000,
        decreases n - i,
    {
        let p = ring[i];
        let q = if i + 1 == n {
            ring[0]
        } else {
            ring[i + 1]
        };
        proof {
            assert(limits::pt_safe(ring@[i as int]));
            assert(limits::pt_safe(ring@[next(i as int, n as int)]));
            term_bound(p.x as int, q.y as int);
            term_bound(q.x as int, p.y as int);
        }
        sum = sum + ((p.x as i128) * (q.y as i128) - (q.x as i128) * (p.y as i128));
        i += 1;
    }
    sum
}

/// Every sum of leading shoelace terms fits in 128 bits, and so does its negative.
pub open spec fn area_fits(ring: Seq<Point>) -> bool {
    forall|k: nat|
        k <= ring.len() ==> i128::MIN < #[trigger] area2_prefix(ring, k) <= i128::MAX
}

/// Twice the signed area of a ring, where its sums fit.
pub fn checked_area2(ring: &Vec<Point>) -> (r: Option<i128>)
    ensures
        match r {
            Some(a) => area_fits(ring@) && a == area2(ring@),
            None => !area_fits(ring@),
        },
{
    let n = ring.len();
    let mut sum: i128 = 0;
    let mut i: usize = 0;
    while i < n
        invariant
            n == ring.len(),
            i <= n,
            sum == area2_prefix(ring@, i as nat),
            forall|k: nat| k <= i ==> i128::MIN < #[trigger] area2_prefix(ring@, k) <= i128::MAX,
        decreases n - i,
    {
        let p = ring[i];
        let q = if i + 1 == n {
            ring[0]
        } else {
            ring[i + 1]
        };
        proof {
            wide_term(p.x as int, q.y as int);
            wide_term(q.x as int, p.y as int);
        }
        let a: i128 = (p.x as i128) * (q.y as i128);
        let b: i128 = (q.x as i128) * (p.y as i128);
        let next: Option<i128> = sum.checked_add(a - b);
        assert(area2_prefix(ring@, (i + 1) as nat) == sum + (a - b));
        match next {
            Some(s) if s > i128::MIN => {
                sum = s;
            },
            _ => {
                return None;
            },
        }
        i += 1;
    }
    Some(sum)
}

proof fn wide_term(x: int, y: int)
    requires
        i64::MIN <= x <= i64::MAX,
        i64::MIN <= y <= i64::MAX,
    ensures
        -0x4000_0000_0000_0000_0000_0000_0000_0000 < x * y
            <= 0x4000_0000_0000_0000_0000_0000_0000_0000,
{
    assert(-0x4000_0000_0000_0000_0000_0000_0000_0000 < x * y
        <= 0x4000_0000_0000_0000_0000_0000_0000_0000) by (nonlinear_arith)
        requires
            -0x8000_0000_0000_0000 <= x <= 0x7fff_ffff_ffff_ffff,
            -0x8000_0000_0000_0000 <= y <= 0x7fff_ffff_ffff_ffff,
    ;
}

proof fn term_bound(x: int, y: int)
    requires
        limits::in_kernel(x),
        limits::in_kernel(y),
    ensures
        -1_628_176_000_000_000_000 <= x * y <= 1_628_176_000_000_000_000,
{
    assert(-1_628_176_000_000_000_000 <= x * y <= 1_628_176_000_000_000_000) by (nonlinear_arith)
        requires
            -1_276_000_000 <= x <= 1_276_000_000,
            -1_276_000_000 <= y <= 1_276_000_000,
    ;
}

/// Walking a ring backwards negates its signed area.
pub proof fn reversed_ring_has_opposite_area(ring: Seq<Point>)
    ensures
        area2(ring.reverse()) == -area2(ring),
{
    let n = ring.len();
    let r = ring.reverse();
    if n > 0 {
        reversed_prefix(ring, (n - 1) as nat);
        assert(shoelace(r[n - 1], r[0]) == -shoelace(ring[n - 1], ring[0])) by {
            assert(r[n - 1] == ring[0] && r[0] == ring[n - 1]);
            swap_terms(ring[0], ring[n - 1]);
        }
    }
}

proof fn swap_terms(p: Point, q: Point)
    ensures
        shoelace(p, q) == -shoelace(q, p),
{
    assert(p.x * q.y == q.y * p.x && q.x * p.y == p.y * q.x) by (nonlinear_arith);
}

proof fn reversed_prefix(ring: Seq<Point>, m: nat)
    requires
        m < ring.len(),
    ensures
        area2_prefix(ring.reverse(), m) == area2_prefix(ring, (ring.len() - 1 - m) as nat)
            - area2_prefix(ring, (ring.len() - 1) as nat),
    decreases m,
{
    let n = ring.len();
    let r = ring.reverse();
    if m > 0 {
        reversed_prefix(ring, (m - 1) as nat);
        let k = n - 1 - m;
        assert(r[m - 1] == ring[k + 1]);
        assert(r[m as int] == ring[k]);
        swap_terms(ring[k + 1], ring[k]);
        assert(area2_prefix(ring, (k + 1) as nat) == area2_prefix(ring, k as nat) + shoelace(
            ring[k],
            ring[k + 1],
        ));
    }
}

// ---------------------------------------------------------------------------
// Point in polygon.
// ---------------------------------------------------------------------------

/// Does the edge from `pj` to `pi` cross the ray from `p` towards +x?
pub open spec fn crosses_ray(pi: Point, pj: Point, p: Point) -> bool {
    let dy = pj.y - pi.y;
    &&& (pi.y > p.y) != (pj.y > p.y)
    &&& ((p.x - pi.x) * dy < (p.y - pi.y) * (pj.x - pi.x)) == (dy > 0)
}

/// The index before `i` around a ring of `n` points.
pub open spec fn prev(i: int, n: int) -> int {
    if i == 0 {
        n - 1
    } else {
        i - 1
    }
}

/// How many of the first `k` edges cross the ray from `p`.
pub open spec fn crossings(p: Point, ring: Seq<Point>, k: nat) -> nat
    decreases k,
{
    if k == 0 {
        0
    } else {
        crossings(p, ring, (k - 1) as nat) + if crosses_ray(
            ring[k - 1],
            ring[prev(k - 1, ring.len() as int)],
            p,
        ) {
            1nat
        } else {
            0nat
        }
    }
}

/// Is `p` on the boundary of the ring?
pub open spec fn on_boundary(p: Point, ring: Seq<Point>) -> bool {
    exists|i: int|
        0 <= i < ring.len() && #[trigger] seg::on_segment(
            ring[i],
            ring[next(i, ring.len() as int)],
            p,
        )
}

/// Is `p` strictly inside by the crossing number?
pub open spec fn odd_crossings(p: Point, ring: Seq<Point>) -> bool {
    crossings(p, ring, ring.len()) % 2 == 1
}

/// Is `p` in the closed polygon? Fewer than three points enclose nothing.
pub open spec fn in_polygon(p: Point, ring: Seq<Point>) -> bool {
    ring.len() >= 3 && (on_boundary(p, ring) || odd_crossings(p, ring))
}

/// Is `p` on the boundary of the ring?
pub fn on_ring(p: Point, ring: &Vec<Point>) -> (r: bool)
    requires
        limits::pt_exact(p),
        limits::all_exact(ring@),
    ensures
        r == on_boundary(p, ring@),
{
    let n = ring.len();
    let mut i: usize = 0;
    while i < n
        invariant
            n == ring.len(),
            i <= n,
            limits::pt_exact(p),
            limits::all_exact(ring@),
            forall|j: int|
                0 <= j < i ==> !#[trigger] seg::on_segment(
                    ring@[j],
                    ring@[next(j, n as int)],
                    p,
                ),
        decreases n - i,
    {
        let a = ring[i];
        let b = if i + 1 == n {
            ring[0]
        } else {
            ring[i + 1]
        };
        proof {
            assert(limits::pt_exact(ring@[i as int]));
            assert(limits::pt_exact(ring@[next(i as int, n as int)]));
        }
        if orient(a, b, p) == 0 && on_seg(a, b, p) {
            assert(seg::on_segment(ring@[i as int], ring@[next(i as int, n as int)], p));
            return true;
        }
        i += 1;
    }
    false
}

/// Is the number of edges crossing the ray from `p` odd?
pub fn crosses_oddly(p: Point, ring: &Vec<Point>) -> (r: bool)
    requires
        limits::pt_exact(p),
        limits::all_exact(ring@),
    ensures
        r == odd_crossings(p, ring@),
{
    let n = ring.len();
    let mut inside = false;
    let mut i: usize = 0;
    while i < n
        invariant
            n == ring.len(),
            i <= n,
            limits::pt_exact(p),
            limits::all_exact(ring@),
            inside == (crossings(p, ring@, i as nat) % 2 == 1),
        decreases n - i,
    {
        let pi = ring[i];
        let pj = if i == 0 {
            ring[n - 1]
        } else {
            ring[i - 1]
        };
        proof {
            assert(limits::pt_exact(ring@[i as int]));
            assert(limits::pt_exact(ring@[prev(i as int, n as int)]));
        }
        if (pi.y > p.y) != (pj.y > p.y) {
            let dy: i128 = (pj.y - pi.y) as i128;
            let ux: i128 = (p.x - pi.x) as i128;
            let uy: i128 = (p.y - pi.y) as i128;
            let vx: i128 = (pj.x - pi.x) as i128;
            proof {
                exact_product(ux as int, dy as int);
                exact_product(uy as int, vx as int);
            }
            if (ux * dy < uy * vx) == (dy > 0) {
                inside = !inside;
            }
        }
        i += 1;
    }
    inside
}

proof fn exact_product(x: int, y: int)
    requires
        i64::MIN <= x <= i64::MAX,
        i64::MIN <= y <= i64::MAX,
    ensures
        i128::MIN <= x * y <= i128::MAX,
{
    assert(i128::MIN <= x * y <= i128::MAX) by (nonlinear_arith)
        requires
            -0x8000_0000_0000_0000 <= x <= 0x7fff_ffff_ffff_ffff,
            -0x8000_0000_0000_0000 <= y <= 0x7fff_ffff_ffff_ffff,
            i128::MIN == -0x8000_0000_0000_0000_0000_0000_0000_0000,
            i128::MAX == 0x7fff_ffff_ffff_ffff_ffff_ffff_ffff_ffff,
    ;
}

/// Is `p` in the closed polygon? The boundary counts as inside.
pub fn point_in_polygon(p: Point, poly: &Vec<Point>) -> (r: bool)
    requires
        limits::pt_exact(p),
        limits::all_exact(poly@),
    ensures
        r == in_polygon(p, poly@),
{
    if poly.len() < 3 {
        return false;
    }
    on_ring(p, poly) || crosses_oddly(p, poly)
}

// ---------------------------------------------------------------------------
// Regions: islands minus holes.
// ---------------------------------------------------------------------------

/// A filled area as oriented rings: counter-clockwise islands and clockwise holes.
#[derive(Debug, PartialEq, Eq)]
pub struct Region {
    pub rings: Vec<Vec<Point>>,
}

/// The point sequences of a list of rings.
pub open spec fn ring_views(v: Seq<Vec<Point>>) -> Seq<Seq<Point>> {
    Seq::new(v.len(), |i: int| v[i]@)
}

impl View for Region {
    type V = Seq<Seq<Point>>;

    open spec fn view(&self) -> Seq<Seq<Point>> {
        ring_views(self.rings@)
    }
}

/// Every vertex of the first `k` rings, ring after ring.
pub open spec fn vertices_prefix(rings: Seq<Seq<Point>>, k: nat) -> Seq<Point>
    decreases k,
{
    if k == 0 {
        Seq::empty()
    } else {
        vertices_prefix(rings, (k - 1) as nat) + rings[k - 1]
    }
}

/// Every vertex, ring after ring.
pub open spec fn vertices(rings: Seq<Seq<Point>>) -> Seq<Point> {
    vertices_prefix(rings, rings.len())
}

/// Every vertex kernel-safe.
pub open spec fn rings_safe(rings: Seq<Seq<Point>>) -> bool {
    forall|i: int| 0 <= i < rings.len() ==> limits::all_safe(#[trigger] rings[i])
}

/// Every vertex small enough for exact orientation tests.
pub open spec fn rings_exact(rings: Seq<Seq<Point>>) -> bool {
    forall|i: int| 0 <= i < rings.len() ==> limits::all_exact(#[trigger] rings[i])
}

/// How many of the first `k` rings the ray from `p` crosses an odd number of times.
pub open spec fn enclosing(p: Point, rings: Seq<Seq<Point>>, k: nat) -> nat
    decreases k,
{
    if k == 0 {
        0
    } else {
        enclosing(p, rings, (k - 1) as nat) + if odd_crossings(p, rings[k - 1]) {
            1nat
        } else {
            0nat
        }
    }
}

/// Is `p` in the closed region: on some ring, or enclosed by an odd number of rings (an
/// island that no hole takes away again)?
pub open spec fn in_region(p: Point, rings: Seq<Seq<Point>>) -> bool {
    ||| exists|i: int| 0 <= i < rings.len() && on_boundary(p, #[trigger] rings[i])
    ||| enclosing(p, rings, rings.len()) % 2 == 1
}

/// The rings that wind clockwise.
pub open spec fn hole_rings(rings: Seq<Seq<Point>>) -> Seq<Seq<Point>>
    decreases rings.len(),
{
    if rings.len() == 0 {
        Seq::empty()
    } else if area2(rings.last()) < 0 {
        hole_rings(rings.drop_last()).push(rings.last())
    } else {
        hole_rings(rings.drop_last())
    }
}

pub fn clone_points(v: &Vec<Point>) -> (r: Vec<Point>)
    ensures
        r@ == v@,
{
    let mut out: Vec<Point> = Vec::new();
    let mut i: usize = 0;
    while i < v.len()
        invariant
            i <= v.len(),
            out@ == v@.take(i as int),
        decreases v.len() - i,
    {
        out.push(v[i]);
        i += 1;
        assert(v@.take(i as int) =~= v@.take(i - 1).push(v@[i - 1]));
    }
    assert(v@.take(i as int) =~= v@);
    out
}

impl Clone for Region {
    fn clone(&self) -> (r: Region)
        ensures
            r@ == self@,
    {
        let mut rings: Vec<Vec<Point>> = Vec::new();
        let mut i: usize = 0;
        while i < self.rings.len()
            invariant
                i <= self.rings.len(),
                rings.len() == i,
                forall|j: int| 0 <= j < i ==> rings@[j]@ == self.rings@[j]@,
            decreases self.rings.len() - i,
        {
            rings.push(clone_points(&self.rings[i]));
            i += 1;
        }
        let r = Region { rings };
        assert(r@ =~= self@);
        r
    }
}

impl Region {
    /// No rings at all.
    pub fn is_empty(&self) -> (r: bool)
        ensures
            r == (self@.len() == 0),
    {
        self.rings.len() == 0
    }

    /// Every vertex, ring after ring.
    pub fn all_points(&self) -> (r: Vec<Point>)
        ensures
            r@ == vertices(self@),
    {
        let mut out: Vec<Point> = Vec::new();
        let mut i: usize = 0;
        assert(out@ =~= vertices_prefix(self@, 0));
        while i < self.rings.len()
            invariant
                i <= self.rings.len(),
                out@ == vertices_prefix(self@, i as nat),
            decreases self.rings.len() - i,
        {
            let ghost before = out@;
            let ring = &self.rings[i];
            let mut j: usize = 0;
            assert(out@ =~= before + ring@.take(0));
            while j < ring.len()
                invariant
                    j <= ring.len(),
                    out@ == before + ring@.take(j as int),
                decreases ring.len() - j,
            {
                out.push(ring[j]);
                j += 1;
                assert(ring@.take(j as int) =~= ring@.take(j - 1).push(ring@[j - 1]));
                assert(out@ =~= before + ring@.take(j as int));
            }
            assert(ring@.take(j as int) =~= ring@);
            assert(self@[i as int] == ring@);
            i += 1;
        }
        out
    }

    /// Is `p` in the closed region?
    pub fn contains_point(&self, p: Point) -> (r: bool)
        requires
            limits::pt_exact(p),
            rings_exact(self@),
        ensures
            r == in_region(p, self@),
    {
        let mut inside = false;
        let mut i: usize = 0;
        while i < self.rings.len()
            invariant
                i <= self.rings.len(),
                limits::pt_exact(p),
                rings_exact(self@),
                forall|j: int| 0 <= j < i ==> !on_boundary(p, #[trigger] self@[j]),
                inside == (enclosing(p, self@, i as nat) % 2 == 1),
            decreases self.rings.len() - i,
        {
            assert(limits::all_exact(self@[i as int]));
            if on_ring(p, &self.rings[i]) {
                assert(on_boundary(p, self@[i as int]));
                return true;
            }
            if crosses_oddly(p, &self.rings[i]) {
                inside = !inside;
            }
            i += 1;
        }
        inside
    }

    /// The region of the clockwise rings alone.
    pub fn holes(&self) -> (r: Region)
        requires
            rings_safe(self@),
        ensures
            r@ == hole_rings(self@),
    {
        let mut rings: Vec<Vec<Point>> = Vec::new();
        let mut i: usize = 0;
        assert(ring_views(rings@) =~= hole_rings(self@.take(0)));
        while i < self.rings.len()
            invariant
                i <= self.rings.len(),
                rings_safe(self@),
                ring_views(rings@) == hole_rings(self@.take(i as int)),
            decreases self.rings.len() - i,
        {
            assert(limits::all_safe(self@[i as int]));
            let ghost before = rings@;
            proof {
                let t = self@.take(i as int + 1);
                assert(t.drop_last() =~= self@.take(i as int));
                assert(t.last() == self@[i as int]);
            }
            if signed_area2(&self.rings[i]) < 0 {
                rings.push(clone_points(&self.rings[i]));
                assert(ring_views(rings@) =~= ring_views(before).push(self@[i as int]));
            }
            i += 1;
        }
        assert(self@.take(i as int) =~= self@);
        Region { rings }
    }
}

} // verus!
