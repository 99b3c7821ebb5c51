//! Exact-integer point and segment predicates.

use super::limits;
use super::limits::{EXACT_COORD, KERNEL_SAFE_COORD};
use crate::coord::Point;
use vstd::prelude::*;

verus! {

/// Squared length of the vector `(x, y)`.
pub open spec fn norm2(x: int, y: int) -> int {
    x * x + y * y
}

/// `(a→b) × (a→c)`: twice the signed area of the triangle, positive when it winds
/// counter-clockwise.
pub open spec fn cross(a: Point, b: Point, c: Point) -> int {
    (b.x - a.x) * (c.y - a.y) - (b.y - a.y) * (c.x - a.x)
}

/// The sign of an integer.
pub open spec fn sign(v: int) -> int {
    if v > 0 {
        1
    } else if v < 0 {
        -1
    } else {
        0
    }
}

/// Is `p` inside the bounding box of `a` and `b`?
pub open spec fn in_box(a: Point, b: Point, p: Point) -> bool {
    &&& (a.x <= p.x <= b.x || b.x <= p.x <= a.x)
    &&& (a.y <= p.y <= b.y || b.y <= p.y <= a.y)
}

/// Is `p` on the closed segment from `a` to `b`?
pub open spec fn on_segment(a: Point, b: Point, p: Point) -> bool {
    cross(a, b, p) == 0 && in_box(a, b, p)
}

/// Do the closed segments `a1a2` and `b1b2` meet? Either each separates the other's
/// ends, or an end of one lies on the other.
pub open spec fn segments_meet(a1: Point, a2: Point, b1: Point, b2: Point) -> bool {
    ||| (sign(cross(b1, b2, a1)) != sign(cross(b1, b2, a2))
        && sign(cross(a1, a2, b1)) != sign(cross(a1, a2, b2)))
    ||| on_segment(b1, b2, a1)
    ||| on_segment(b1, b2, a2)
    ||| on_segment(a1, a2, b1)
    ||| on_segment(a1, a2, b2)
}

/// The squared distance from `p` to the closed segment `a`–`b`, as a fraction
/// `(num, den)` with `den > 0`: to the nearer end when the foot of the perpendicular
/// falls outside the segment, to the line otherwise.
pub open spec fn dist2(p: Point, a: Point, b: Point) -> (int, int) {
    let (vx, vy) = (b.x - a.x, b.y - a.y);
    let (wx, wy) = (p.x - a.x, p.y - a.y);
    let den = norm2(vx, vy);
    let t = wx * vx + wy * vy;
    if den == 0 || t <= 0 {
        (norm2(wx, wy), 1)
    } else if t >= den {
        (norm2(p.x - b.x, p.y - b.y), 1)
    } else {
        (norm2(wx, wy) * den - t * t, den)
    }
}

/// Is `p` strictly closer to the segment than `√thr2`?
pub open spec fn point_within(p: Point, a: Point, b: Point, thr2: int) -> bool {
    dist2(p, a, b).0 < thr2 * dist2(p, a, b).1
}

/// Is some end of either segment strictly closer to the other segment than `√thr2`? For
/// segments that do not meet this is their distance.
pub open spec fn ends_within(a1: Point, a2: Point, b1: Point, b2: Point, thr2: int) -> bool {
    ||| point_within(a1, b1, b2, thr2)
    ||| point_within(a2, b1, b2, thr2)
    ||| point_within(b1, a1, a2, thr2)
    ||| point_within(b2, a1, a2, thr2)
}

/// Is `p` no farther from the segment than `√thr2`?
pub open spec fn point_reaches(p: Point, a: Point, b: Point, thr2: int) -> bool {
    dist2(p, a, b).0 <= thr2 * dist2(p, a, b).1
}

/// Is some end of either segment no farther from the other segment than `√thr2`? For
/// segments that do not meet this is their distance.
pub open spec fn ends_reach(a1: Point, a2: Point, b1: Point, b2: Point, thr2: int) -> bool {
    ||| point_reaches(a1, b1, b2, thr2)
    ||| point_reaches(a2, b1, b2, thr2)
    ||| point_reaches(b1, a1, a2, thr2)
    ||| point_reaches(b2, a1, a2, thr2)
}

// ---------------------------------------------------------------------------
// Laws.
// ---------------------------------------------------------------------------

proof fn square_of_sum(x: int, y: int)
    ensures
        (x + y) * (x + y) == x * x + 2 * (x * y) + y * y,
        (x - y) * (x - y) == x * x - 2 * (x * y) + y * y,
{
    assert((x + y) * (x + y) == x * x + 2 * (x * y) + y * y) by (nonlinear_arith);
    assert((x - y) * (x - y) == x * x - 2 * (x * y) + y * y) by (nonlinear_arith);
}

proof fn swap_middle(a: int, b: int, c: int, d: int)
    ensures
        (a * b) * (c * d) == (a * c) * (b * d),
{
    assert((a * b) * (c * d) == (a * c) * (b * d)) by (nonlinear_arith);
}

proof fn spread(a: int, b: int, c: int)
    ensures
        a * (b + c) == a * b + a * c,
        a * (b - c) == a * b - a * c,
        (b + c) * a == b * a + c * a,
        (b - c) * a == b * a - c * a,
{
    assert(a * (b + c) == a * b + a * c) by (nonlinear_arith);
    assert(a * (b - c) == a * b - a * c) by (nonlinear_arith);
    assert((b + c) * a == b * a + c * a) by (nonlinear_arith);
    assert((b - c) * a == b * a - c * a) by (nonlinear_arith);
}

proof fn square_nonneg(x: int)
    ensures
        x * x >= 0,
{
    assert(x * x >= 0) by (nonlinear_arith);
}

/// The vector identity behind the perpendicular case: `|v|²·|w|² − (v·w)² = (v×w)²`.
pub proof fn lagrange_identity(vx: int, vy: int, wx: int, wy: int)
    ensures
        norm2(wx, wy) * norm2(vx, vy) - (wx * vx + wy * vy) * (wx * vx + wy * vy) == (wx * vy
            - wy * vx) * (wx * vy - wy * vx),
{
    let (a, b, c, d) = (wx * vx, wy * vy, wx * vy, wy * vx);
    square_of_sum(a, b);
    square_of_sum(c, d);
    swap_middle(wx, vx, wx, vx);
    swap_middle(wy, vy, wy, vy);
    swap_middle(wx, vy, wx, vy);
    swap_middle(wy, vx, wy, vx);
    assert(a * b == c * d) by {
        swap_middle(wx, vx, wy, vy);
        swap_middle(wx, vy, wy, vx);
        assert((wx * wy) * (vx * vy) == (wx * wy) * (vy * vx)) by (nonlinear_arith);
    }
    let (xx, yy, p, q) = (wx * wx, wy * wy, vx * vx, vy * vy);
    spread(xx + yy, p, q);
    spread(p, xx, yy);
    spread(q, xx, yy);
}

/// The squared length of `d·w − s·v`, expanded.
proof fn expand_offset(vx: int, vy: int, wx: int, wy: int, s: int, d: int)
    ensures
        norm2(d * wx - s * vx, d * wy - s * vy) == (d * d) * norm2(wx, wy) - 2 * ((d * s) * (wx * vx
            + wy * vy)) + (s * s) * norm2(vx, vy),
{
    square_of_sum(d * wx, s * vx);
    square_of_sum(d * wy, s * vy);
    swap_middle(d, wx, d, wx);
    swap_middle(d, wy, d, wy);
    swap_middle(d, wx, s, vx);
    swap_middle(d, wy, s, vy);
    swap_middle(s, vx, s, vx);
    swap_middle(s, vy, s, vy);
    spread(d * d, wx * wx, wy * wy);
    spread(s * s, vx * vx, vy * vy);
    spread(d * s, wx * vx, wy * vy);
}

/// `dist2` is a genuine squared distance: no point of the segment is nearer. The point
/// at fraction `s/d` along the segment is at squared distance
/// `|d·w − s·v|² / d²`, never less than `num/den`.
pub proof fn dist2_is_minimal(p: Point, a: Point, b: Point, s: int, d: int)
    requires
        d > 0,
        0 <= s <= d,
    ensures
        dist2(p, a, b).1 > 0,
        dist2(p, a, b).0 >= 0,
        norm2(d * (p.x - a.x) - s * (b.x - a.x), d * (p.y - a.y) - s * (b.y - a.y)) * dist2(
            p,
            a,
            b,
        ).1 >= dist2(p, a, b).0 * (d * d),
{
    let (vx, vy) = (b.x - a.x, b.y - a.y);
    let (wx, wy) = (p.x - a.x, p.y - a.y);
    let den = norm2(vx, vy);
    let ww = norm2(wx, wy);
    let t = wx * vx + wy * vy;
    square_nonneg(vx);
    square_nonneg(vy);
    square_nonneg(wx);
    square_nonneg(wy);
    let q = norm2(d * wx - s * vx, d * wy - s * vy);
    let (dd, ds, ss) = (d * d, d * s, s * s);
    expand_offset(vx, vy, wx, wy, s, d);
    square_nonneg(s);
    assert(ds >= 0) by (nonlinear_arith)
        requires
            ds == d * s,
            d > 0,
            s >= 0,
    ;
    assert(ss * den >= 0) by (nonlinear_arith)
        requires
            ss >= 0,
            den >= 0,
    ;
    assert(dd * ww == ww * dd) by (nonlinear_arith);
    if den == 0 || t <= 0 {
        if den == 0 {
            assert(vx == 0 && vy == 0) by (nonlinear_arith)
                requires
                    vx * vx + vy * vy == 0,
            ;
            assert(t == 0) by (nonlinear_arith)
                requires
                    t == wx * vx + wy * vy,
                    vx == 0,
                    vy == 0,
            ;
        }
        assert(ds * t <= 0) by (nonlinear_arith)
            requires
                ds >= 0,
                t <= 0,
        ;
    } else if t >= den {
        let (ux, uy) = (p.x - b.x, p.y - b.y);
        let uu = norm2(ux, uy);
        square_of_sum(wx, vx);
        square_of_sum(wy, vy);
        assert(uu == ww - 2 * t + den);
        square_nonneg(ux);
        square_nonneg(uy);
        // q − uu·d² = 2t·(d² − ds) − den·(d² − s²) ≥ den·(d − s)².
        spread(dd, ww - 2 * t, den);
        spread(dd, ww, 2 * t);
        assert(dd * (2 * t) == 2 * (dd * t)) by (nonlinear_arith);
        assert(uu * dd == dd * ww - 2 * (dd * t) + dd * den) by (nonlinear_arith)
            requires
                uu * dd == dd * uu,
                dd * uu == dd * ww - 2 * (dd * t) + dd * den,
        ;
        let m = dd - ds;
        assert(m >= 0) by (nonlinear_arith)
            requires
                m == d * d - d * s,
                d > 0,
                s <= d,
        ;
        assert(t * m >= den * m) by (nonlinear_arith)
            requires
                t >= den,
                m >= 0,
        ;
        spread(t, dd, ds);
        spread(den, dd, ds);
        assert(dd * t == t * dd && ds * t == t * ds && dd * den == den * dd && ss * den == den * ss)
            by (nonlinear_arith);
        square_of_sum(d, s);
        square_nonneg(d - s);
        let e = dd - 2 * ds + ss;
        assert(den * e >= 0) by (nonlinear_arith)
            requires
                den >= 0,
                e >= 0,
        ;
        spread(den, dd - 2 * ds, ss);
        spread(den, dd, 2 * ds);
        assert(den * (2 * ds) == 2 * (den * ds)) by (nonlinear_arith);
    } else {
        lagrange_identity(vx, vy, wx, wy);
        let num = ww * den - t * t;
        square_nonneg(wx * vy - wy * vx);
        // q·den − num·d² = (d·t − s·den)².
        square_of_sum(d * t, s * den);
        square_nonneg(d * t - s * den);
        swap_middle(d, t, d, t);
        swap_middle(s, den, s, den);
        swap_middle(d, t, s, den);
        spread(den, dd * ww - 2 * (ds * t), ss * den);
        spread(den, dd * ww, 2 * (ds * t));
        assert(den * (dd * ww) == (ww * den) * dd) by (nonlinear_arith);
        assert(den * (2 * (ds * t)) == 2 * (ds * (t * den))) by (nonlinear_arith);
        assert(den * (ss * den) == ss * (den * den)) by (nonlinear_arith);
        spread(dd, ww * den, t * t);
        assert(dd * (t * t) == (t * t) * dd) by (nonlinear_arith);
        assert(num * dd == (ww * den) * dd - (t * t) * dd);
        assert(q * den == den * q) by (nonlinear_arith);
    }
}

/// `dist2` is attained: some point of the segment is at exactly that squared distance.
pub proof fn dist2_is_attained(p: Point, a: Point, b: Point)
    ensures
        exists|s: int, d: int|
            d > 0 && 0 <= s <= d && #[trigger] norm2(
                d * (p.x - a.x) - s * (b.x - a.x),
                d * (p.y - a.y) - s * (b.y - a.y),
            ) * dist2(p, a, b).1 == dist2(p, a, b).0 * (d * d),
{
    let (vx, vy) = (b.x - a.x, b.y - a.y);
    let (wx, wy) = (p.x - a.x, p.y - a.y);
    let den = norm2(vx, vy);
    let t = wx * vx + wy * vy;
    square_nonneg(vx);
    square_nonneg(vy);
    if den == 0 || t <= 0 {
        let q = norm2(1 * wx - 0 * vx, 1 * wy - 0 * vy);
        assert(q == norm2(wx, wy));
        assert(q * 1 == norm2(wx, wy) * (1 * 1));
    } else if t >= den {
        let q = norm2(1 * wx - 1 * vx, 1 * wy - 1 * vy);
        assert(q == norm2(p.x - b.x, p.y - b.y));
        assert(q * 1 == norm2(p.x - b.x, p.y - b.y) * (1 * 1));
    } else {
        let q = norm2(den * wx - t * vx, den * wy - t * vy);
        let ww = norm2(wx, wy);
        expand_offset(vx, vy, wx, wy, t, den);
        let num = ww * den - t * t;
        assert((den * t) * t == den * (t * t)) by (nonlinear_arith);
        assert((t * t) * den == den * (t * t)) by (nonlinear_arith);
        assert((den * den) * ww == den * (ww * den)) by (nonlinear_arith);
        spread(den, ww * den, t * t);
        assert(q == den * num);
        assert(q * den == num * (den * den)) by (nonlinear_arith)
            requires
                q == den * num,
        ;
    }
}

/// Whether two segments meet does not depend on which is named first.
pub proof fn segments_meet_symmetric(a1: Point, a2: Point, b1: Point, b2: Point)
    ensures
        segments_meet(a1, a2, b1, b2) == segments_meet(b1, b2, a1, a2),
{
}

/// Nor do their distance tests.
pub proof fn ends_within_symmetric(a1: Point, a2: Point, b1: Point, b2: Point, thr2: int)
    ensures
        ends_within(a1, a2, b1, b2, thr2) == ends_within(b1, b2, a1, a2, thr2),
        ends_reach(a1, a2, b1, b2, thr2) == ends_reach(b1, b2, a1, a2, thr2),
{
}

// ---------------------------------------------------------------------------
// Magnitude bounds.
// ---------------------------------------------------------------------------

proof fn product_bound(x: int, y: int, m: int)
    requires
        -m <= x <= m,
        -m <= y <= m,
    ensures
        -(m * m) <= x * y <= m * m,
{
    assert(-(m * m) <= x * y <= m * m) by (nonlinear_arith)
        requires
            -m <= x <= m,
            -m <= y <= m,
    ;
}

// ---------------------------------------------------------------------------
// The predicates.
// ---------------------------------------------------------------------------

/// `(a→b) × (a→c)`, exactly.
pub fn cross_of(a: Point, b: Point, c: Point) -> (r: i128)
    requires
        limits::pt_exact(a),
        limits::pt_exact(b),
        limits::pt_exact(c),
    ensures
        r == cross(a, b, c),
{
    let ux: i128 = (b.x - a.x) as i128;
    let uy: i128 = (b.y - a.y) as i128;
    let vx: i128 = (c.x - a.x) as i128;
    let vy: i128 = (c.y - a.y) as i128;
    proof {
        let m: int = 2 * EXACT_COORD - 1;
        product_bound(ux as int, vy as int, m);
        product_bound(uy as int, vx as int, m);
        assert(m * m <= 0x3fff_ffff_ffff_ffff_ffff_ffff_ffff_ffff) by (nonlinear_arith)
            requires
                m == 2 * 4_611_686_018_427_387_904 - 1,
        ;
    }
    ux * vy - uy * vx
}

/// 2D orientation of `(a, b, c)`: `1` counter-clockwise, `-1` clockwise, `0` collinear.
pub fn orient(a: Point, b: Point, c: Point) -> (r: i32)
    requires
        limits::pt_exact(a),
        limits::pt_exact(b),
        limits::pt_exact(c),
    ensures
        r == sign(cross(a, b, c)),
{
    let v = cross_of(a, b, c);
    if v > 0 {
        1
    } else if v < 0 {
        -1
    } else {
        0
    }
}

/// Is `p` inside the bounding box of `a` and `b`?
pub fn on_seg(a: Point, b: Point, p: Point) -> (r: bool)
    ensures
        r == in_box(a, b, p),
{
    ((a.x <= p.x && p.x <= b.x) || (b.x <= p.x && p.x <= a.x)) && ((a.y <= p.y && p.y <= b.y) || (
    b.y <= p.y && p.y <= a.y))
}

/// Do the closed segments `a1a2` and `b1b2` intersect, touching included?
pub fn segs_intersect(a1: Point, a2: Point, b1: Point, b2: Point) -> (r: bool)
    requires
        limits::pt_exact(a1),
        limits::pt_exact(a2),
        limits::pt_exact(b1),
        limits::pt_exact(b2),
    ensures
        r == segments_meet(a1, a2, b1, b2),
{
    let d1 = orient(b1, b2, a1);
    let d2 = orient(b1, b2, a2);
    let d3 = orient(a1, a2, b1);
    let d4 = orient(a1, a2, b2);
    if d1 != d2 && d3 != d4 {
        return true;
    }
    (d1 == 0 && on_seg(b1, b2, a1)) || (d2 == 0 && on_seg(b1, b2, a2)) || (d3 == 0 && on_seg(
        a1,
        a2,
        b1,
    )) || (d4 == 0 && on_seg(a1, a2, b2))
}

/// Squared distance from `p` to segment `a`–`b`, as `(num, den)` with `den > 0`.
pub fn pt_seg_d2(p: Point, a: Point, b: Point) -> (r: (i128, i128))
    requires
        limits::pt_safe(p),
        limits::pt_safe(a),
        limits::pt_safe(b),
    ensures
        (r.0 as int, r.1 as int) == dist2(p, a, b),
        0 < r.1 <= 8 * KERNEL_SAFE_COORD * KERNEL_SAFE_COORD,
        0 <= r.0,
{
    let vx: i128 = (b.x - a.x) as i128;
    let vy: i128 = (b.y - a.y) as i128;
    let wx: i128 = (p.x - a.x) as i128;
    let wy: i128 = (p.y - a.y) as i128;
    let ux: i128 = (p.x - b.x) as i128;
    let uy: i128 = (p.y - b.y) as i128;
    let ghost m: int = 2 * KERNEL_SAFE_COORD;
    proof {
        product_bound(vx as int, vx as int, m);
        product_bound(vy as int, vy as int, m);
        product_bound(wx as int, wx as int, m);
        product_bound(wy as int, wy as int, m);
        product_bound(ux as int, ux as int, m);
        product_bound(uy as int, uy as int, m);
        product_bound(wx as int, vx as int, m);
        product_bound(wy as int, vy as int, m);
        assert(m * m == 6_512_704_000_000_000_000) by (nonlinear_arith)
            requires
                m == 2 * 1_276_000_000,
        ;
        assert(8 * KERNEL_SAFE_COORD * KERNEL_SAFE_COORD == 13_025_408_000_000_000_000)
            by (nonlinear_arith)
            requires
                KERNEL_SAFE_COORD == 1_276_000_000,
        ;
        dist2_is_minimal(p, a, b, 0, 1);
    }
    let den: i128 = vx * vx + vy * vy;
    if den == 0 {
        return (wx * wx + wy * wy, 1);
    }
    let t: i128 = wx * vx + wy * vy;
    if t <= 0 {
        (wx * wx + wy * wy, 1)
    } else if t >= den {
        (ux * ux + uy * uy, 1)
    } else {
        let ww: i128 = wx * wx + wy * wy;
        proof {
            let c: int = 13_025_408_000_000_000_000;
            product_bound(ww as int, den as int, c);
            product_bound(t as int, t as int, c);
            assert(c * c <= 0x7fff_ffff_ffff_ffff_ffff_ffff_ffff_ffff) by (nonlinear_arith)
                requires
                    c == 13_025_408_000_000_000_000,
            ;
            square_nonneg(wx as int);
            square_nonneg(wy as int);
            assert(ww * den >= 0) by (nonlinear_arith)
                requires
                    ww >= 0,
                    den >= 0,
            ;
        }
        (ww * den - t * t, den)
    }
}

/// A squared threshold over a segment fits.
proof fn scaled_threshold_fits(thr2: int, den: int)
    requires
        0 <= thr2 <= 8 * KERNEL_SAFE_COORD * KERNEL_SAFE_COORD,
        0 <= den <= 8 * KERNEL_SAFE_COORD * KERNEL_SAFE_COORD,
    ensures
        0 <= thr2 * den <= i128::MAX,
{
    let c: int = 8 * KERNEL_SAFE_COORD * KERNEL_SAFE_COORD;
    assert(c == 13_025_408_000_000_000_000) by (nonlinear_arith)
        requires
            c == 8 * KERNEL_SAFE_COORD * KERNEL_SAFE_COORD,
            KERNEL_SAFE_COORD == 1_276_000_000,
    ;
    product_bound(thr2, den, c);
    assert(c * c <= 0x7fff_ffff_ffff_ffff_ffff_ffff_ffff_ffff) by (nonlinear_arith)
        requires
            c == 13_025_408_000_000_000_000,
    ;
}

/// Is `p` strictly closer to the segment than `√thr2`?
pub fn pt_seg_within2(p: Point, a: Point, b: Point, thr2: i128) -> (r: bool)
    requires
        limits::pt_safe(p),
        limits::pt_safe(a),
        limits::pt_safe(b),
        0 <= thr2 <= 8 * KERNEL_SAFE_COORD * KERNEL_SAFE_COORD,
    ensures
        r == point_within(p, a, b, thr2 as int),
{
    let (num, den) = pt_seg_d2(p, a, b);
    proof {
        scaled_threshold_fits(thr2 as int, den as int);
    }
    num < thr2 * den
}

/// Is `p` no farther from the segment than `√thr2`?
pub fn pt_seg_reaches2(p: Point, a: Point, b: Point, thr2: i128) -> (r: bool)
    requires
        limits::pt_safe(p),
        limits::pt_safe(a),
        limits::pt_safe(b),
        0 <= thr2 <= 8 * KERNEL_SAFE_COORD * KERNEL_SAFE_COORD,
    ensures
        r == point_reaches(p, a, b, thr2 as int),
{
    let (num, den) = pt_seg_d2(p, a, b);
    proof {
        scaled_threshold_fits(thr2 as int, den as int);
    }
    num <= thr2 * den
}

/// For two segments that do not meet, is their distance strictly below `√thr2`?
pub fn segs_within(a1: Point, a2: Point, b1: Point, b2: Point, thr2: i128) -> (r: bool)
    requires
        limits::pt_safe(a1),
        limits::pt_safe(a2),
        limits::pt_safe(b1),
        limits::pt_safe(b2),
        0 <= thr2 <= 8 * KERNEL_SAFE_COORD * KERNEL_SAFE_COORD,
    ensures
        r == ends_within(a1, a2, b1, b2, thr2 as int),
{
    pt_seg_within2(a1, b1, b2, thr2) || pt_seg_within2(a2, b1, b2, thr2) || pt_seg_within2(
        b1,
        a1,
        a2,
        thr2,
    ) || pt_seg_within2(b2, a1, a2, thr2)
}

/// For two segments that do not meet, is their distance at most `√thr2`?
pub fn segs_reach(a1: Point, a2: Point, b1: Point, b2: Point, thr2: i128) -> (r: bool)
    requires
        limits::pt_safe(a1),
        limits::pt_safe(a2),
        limits::pt_safe(b1),
        limits::pt_safe(b2),
        0 <= thr2 <= 8 * KERNEL_SAFE_COORD * KERNEL_SAFE_COORD,
    ensures
        r == ends_reach(a1, a2, b1, b2, thr2 as int),
{
    pt_seg_reaches2(a1, b1, b2, thr2) || pt_seg_reaches2(a2, b1, b2, thr2) || pt_seg_reaches2(
        b1,
        a1,
        a2,
        thr2,
    ) || pt_seg_reaches2(b2, a1, a2, thr2)
}

} // verus!
