//! The convex hull of lattice points, by monotone chains.

use super::limits;
use super::seg;
use super::seg::cross_of;
use crate::coord::Point;
use vstd::prelude::*;

verus! {

// ---------------------------------------------------------------------------
// Directions: vectors of the half plane x > 0, or x = 0 and y > 0.
// ---------------------------------------------------------------------------

/// Does the vector point forward: right, or straight up?
pub open spec fn forward(x: int, y: int) -> bool {
    x > 0 || (x == 0 && y > 0)
}

/// `u × v`.
pub open spec fn vcross(ux: int, uy: int, vx: int, vy: int) -> int {
    ux * vy - uy * vx
}

/// Does `a` come before `b`, left to right and then bottom to top (`dir = 1`), or the
/// other way round (`dir = -1`)?
pub open spec fn ahead(dir: int, a: Point, b: Point) -> bool {
    forward(dir * (b.x - a.x), dir * (b.y - a.y))
}

proof fn pluecker(ux: int, uy: int, vx: int, vy: int, wx: int, wy: int)
    ensures
        vx * vcross(ux, uy, wx, wy) == ux * vcross(vx, vy, wx, wy) + wx * vcross(ux, uy, vx, vy),
        vy * vcross(ux, uy, wx, wy) == uy * vcross(vx, vy, wx, wy) + wy * vcross(ux, uy, vx, vy),
{
    assert(vx * (ux * wy - uy * wx) == vx * (ux * wy) - vx * (uy * wx)) by (nonlinear_arith);
    assert(ux * (vx * wy - vy * wx) == ux * (vx * wy) - ux * (vy * wx)) by (nonlinear_arith);
    assert(wx * (ux * vy - uy * vx) == wx * (ux * vy) - wx * (uy * vx)) by (nonlinear_arith);
    assert(vx * (ux * wy) == ux * (vx * wy)) by (nonlinear_arith);
    assert(vx * (uy * wx) == wx * (uy * vx)) by (nonlinear_arith);
    assert(ux * (vy * wx) == wx * (ux * vy)) by (nonlinear_arith);
    assert(vy * (ux * wy - uy * wx) == vy * (ux * wy) - vy * (uy * wx)) by (nonlinear_arith);
    assert(uy * (vx * wy - vy * wx) == uy * (vx * wy) - uy * (vy * wx)) by (nonlinear_arith);
    assert(wy * (ux * vy - uy * vx) == wy * (ux * vy) - wy * (uy * vx)) by (nonlinear_arith);
    assert(vy * (ux * wy) == wy * (ux * vy)) by (nonlinear_arith);
    assert(vy * (uy * wx) == uy * (vy * wx)) by (nonlinear_arith);
    assert(uy * (vx * wy) == wy * (uy * vx)) by (nonlinear_arith);
}

/// Turning left twice among forward vectors is turning left.
proof fn turns_chain(ux: int, uy: int, vx: int, vy: int, wx: int, wy: int)
    requires
        forward(ux, uy),
        forward(vx, vy),
        forward(wx, wy),
        vcross(ux, uy, vx, vy) >= 0,
        vcross(vx, vy, wx, wy) >= 0,
    ensures
        vcross(ux, uy, wx, wy) >= 0,
        vcross(ux, uy, vx, vy) > 0 || vcross(vx, vy, wx, wy) > 0 ==> vcross(ux, uy, wx, wy) > 0,
{
    pluecker(ux, uy, vx, vy, wx, wy);
    let (uv, vw, uw) = (
        vcross(ux, uy, vx, vy),
        vcross(vx, vy, wx, wy),
        vcross(ux, uy, wx, wy),
    );
    if vx > 0 {
        assert(ux * vw >= 0 && wx * uv >= 0) by (nonlinear_arith)
            requires
                ux >= 0,
                vw >= 0,
                wx >= 0,
                uv >= 0,
        ;
        assert(uw >= 0) by (nonlinear_arith)
            requires
                vx > 0,
                vx * uw >= 0,
        ;
        if uv > 0 || vw > 0 {
            if ux == 0 {
                assert(uv < 0) by (nonlinear_arith)
                    requires
                        uv == ux * vy - uy * vx,
                        ux == 0,
                        uy > 0,
                        vx > 0,
                ;
            }
            if wx == 0 {
                assert(vw > 0) by (nonlinear_arith)
                    requires
                        vw == vx * wy - vy * wx,
                        wx == 0,
                        wy > 0,
                        vx > 0,
                ;
            }
            assert(ux * vw + wx * uv > 0) by (nonlinear_arith)
                requires
                    ux > 0,
                    vw >= 0,
                    uv >= 0,
                    wx >= 0,
                    vw > 0 || (uv > 0 && wx > 0),
            ;
            assert(uw > 0) by (nonlinear_arith)
                requires
                    vx > 0,
                    vx * uw > 0,
            ;
        }
    } else {
        assert(wx == 0) by (nonlinear_arith)
            requires
                vw == vx * wy - vy * wx,
                vw >= 0,
                vx == 0,
                vy > 0,
                wx >= 0,
        ;
        assert(uw == ux * wy) by (nonlinear_arith)
            requires
                uw == ux * wy - uy * wx,
                wx == 0,
        ;
        assert(uv == ux * vy) by (nonlinear_arith)
            requires
                uv == ux * vy - uy * vx,
                vx == 0,
        ;
        assert(vw == 0) by (nonlinear_arith)
            requires
                vw == vx * wy - vy * wx,
                vx == 0,
                wx == 0,
        ;
        assert(uw >= 0 && (ux > 0 ==> uw > 0)) by (nonlinear_arith)
            requires
                uw == ux * wy,
                ux >= 0,
                wy > 0,
        ;
        assert(uv > 0 ==> ux > 0) by (nonlinear_arith)
            requires
                uv == ux * vy,
                ux >= 0,
                vy > 0,
        ;
    }
}

/// Turning both vectors round leaves their cross product.
proof fn turned_cross(dir: int, ux: int, uy: int, vx: int, vy: int)
    requires
        dir == 1 || dir == -1,
    ensures
        vcross(dir * ux, dir * uy, dir * vx, dir * vy) == vcross(ux, uy, vx, vy),
{
    if dir == -1 {
        assert((-ux) * (-vy) == ux * vy && (-uy) * (-vx) == uy * vx) by (nonlinear_arith);
        assert(dir * ux == -ux && dir * uy == -uy && dir * vx == -vx && dir * vy == -vy);
    } else {
        assert(dir * ux == ux && dir * uy == uy && dir * vx == vx && dir * vy == vy);
    }
}

/// `turns_chain` for vectors that all point along `dir`.
proof fn turns_chain_dir(dir: int, ux: int, uy: int, vx: int, vy: int, wx: int, wy: int)
    requires
        dir == 1 || dir == -1,
        forward(dir * ux, dir * uy),
        forward(dir * vx, dir * vy),
        forward(dir * wx, dir * wy),
        vcross(ux, uy, vx, vy) >= 0,
        vcross(vx, vy, wx, wy) >= 0,
    ensures
        vcross(ux, uy, wx, wy) >= 0,
        vcross(ux, uy, vx, vy) > 0 || vcross(vx, vy, wx, wy) > 0 ==> vcross(ux, uy, wx, wy) > 0,
{
    turned_cross(dir, ux, uy, vx, vy);
    turned_cross(dir, vx, vy, wx, wy);
    turned_cross(dir, ux, uy, wx, wy);
    turns_chain(dir * ux, dir * uy, dir * vx, dir * vy, dir * wx, dir * wy);
}

/// The same turn seen from another corner of the triangle.
proof fn cross_rotates(a: Point, b: Point, c: Point)
    ensures
        seg::cross(a, b, c) == seg::cross(b, c, a),
        seg::cross(a, c, b) == -seg::cross(a, b, c),
{
    let (bx, by, cx, cy) = (b.x - a.x, b.y - a.y, c.x - a.x, c.y - a.y);
    assert(bx * cy - by * cx == (cx - bx) * (-by) - (cy - by) * (-bx)) by (nonlinear_arith);
    assert(cx * by - cy * bx == -(bx * cy - by * cx)) by (nonlinear_arith);
}

/// `cross(a, b, c)` as the cross product of `a→b` and `b→c`.
proof fn cross_by_steps(a: Point, b: Point, c: Point)
    ensures
        seg::cross(a, b, c) == vcross(b.x - a.x, b.y - a.y, c.x - b.x, c.y - b.y),
{
    let (ux, uy, vx, vy) = (b.x - a.x, b.y - a.y, c.x - b.x, c.y - b.y);
    assert(ux * (uy + vy) - uy * (ux + vx) == ux * vy - uy * vx) by (nonlinear_arith);
    assert(c.y - a.y == uy + vy && c.x - a.x == ux + vx);
}

/// Along a direction: a left turn at `b` and a left turn at `c` make `d` left of `a→b`.
proof fn left_extends(dir: int, a: Point, b: Point, c: Point, d: Point)
    requires
        dir == 1 || dir == -1,
        ahead(dir, a, b),
        ahead(dir, b, c),
        ahead(dir, c, d),
        seg::cross(a, b, c) > 0,
        seg::cross(b, c, d) >= 0,
    ensures
        seg::cross(a, b, d) > 0,
{
    let (ux, uy) = (b.x - a.x, b.y - a.y);
    let (vx, vy) = (c.x - b.x, c.y - b.y);
    let (wx, wy) = (d.x - c.x, d.y - c.y);
    cross_by_steps(a, b, c);
    cross_by_steps(b, c, d);
    cross_by_steps(a, b, d);
    turns_chain_dir(dir, ux, uy, vx, vy, wx, wy);
    assert(ux * (vy + wy) - uy * (vx + wx) == (ux * vy - uy * vx) + (ux * wy - uy * wx))
        by (nonlinear_arith);
    assert(d.x - b.x == vx + wx && d.y - b.y == vy + wy);
}

/// From a common origin `o`: if `p` is not left of `o→a` and `q` is not right of it,
/// then `q` is not right of `o→p`.
proof fn fan_order(dir: int, o: Point, a: Point, p: Point, q: Point)
    requires
        dir == 1 || dir == -1,
        ahead(dir, o, a),
        ahead(dir, o, p),
        ahead(dir, o, q),
        seg::cross(o, a, p) <= 0,
        seg::cross(o, a, q) >= 0,
    ensures
        seg::cross(o, p, q) >= 0,
{
    cross_rotates(o, a, p);
    turns_chain_dir(dir, p.x - o.x, p.y - o.y, a.x - o.x, a.y - o.y, q.x - o.x, q.y - o.y);
}

/// A point behind `t` and not right of the edge into `t` is left of the edge out of `t`,
/// when the chain turns left at `t`.
proof fn behind_is_left(dir: int, s: Point, t: Point, p: Point, q: Point)
    requires
        dir == 1 || dir == -1,
        ahead(dir, s, t),
        ahead(dir, t, p),
        ahead(dir, q, t),
        seg::cross(s, t, p) > 0,
        seg::cross(s, t, q) >= 0,
    ensures
        seg::cross(t, p, q) >= 0,
{
    let (ux, uy) = (t.x - s.x, t.y - s.y);
    let (wx, wy) = (p.x - t.x, p.y - t.y);
    let (bx, by) = (t.x - q.x, t.y - q.y);
    cross_by_steps(s, t, p);
    cross_by_steps(s, t, q);
    cross_by_steps(t, p, q);
    // (q − t) = −b, so cross(s, t, q) = −(u × b) = b × u.
    assert(vcross(ux, uy, q.x - t.x, q.y - t.y) == vcross(bx, by, ux, uy)) by (nonlinear_arith)
        requires
            q.x - t.x == -bx,
            q.y - t.y == -by,
    ;
    turns_chain_dir(dir, bx, by, ux, uy, wx, wy);
    assert(vcross(wx, wy, q.x - p.x, q.y - p.y) == vcross(bx, by, wx, wy)) by (nonlinear_arith)
        requires
            q.x - p.x == -bx - wx,
            q.y - p.y == -by - wy,
    ;
}

// ---------------------------------------------------------------------------
// Sorting.
// ---------------------------------------------------------------------------

/// Strictly ordered left to right, then bottom to top.
pub open spec fn ordered(dir: int, pts: Seq<Point>) -> bool {
    forall|i: int, j: int| 0 <= i < j < pts.len() ==> #[trigger] ahead(dir, pts[i], pts[j])
}

/// The distinct points of `points`, in order.
fn sorted_distinct(points: &[Point]) -> (r: Vec<Point>)
    ensures
        ordered(1, r@),
        forall|p: Point| r@.contains(p) <==> points@.contains(p),
        r.len() <= points.len(),
{
    let mut out: Vec<Point> = Vec::new();
    let mut k: usize = 0;
    while k < points.len()
        invariant
            k <= points.len(),
            ordered(1, out@),
            out.len() <= k,
            forall|p: Point| out@.contains(p) <==> points@.take(k as int).contains(p),
        decreases points.len() - k,
    {
        let p = points[k];
        let ghost before = out@;
        let mut at: usize = 0;
        while at < out.len() && (out[at].x < p.x || (out[at].x == p.x && out[at].y < p.y))
            invariant
                at <= out.len(),
                out@ == before,
                forall|j: int| 0 <= j < at ==> ahead(1, #[trigger] out@[j], p),
            decreases out.len() - at,
        {
            at += 1;
        }
        let present = at < out.len() && out[at].x == p.x && out[at].y == p.y;
        if !present {
            out.insert(at, p);
            proof {
                assert forall|j: int| at < j < out.len() implies ahead(1, p, #[trigger] out@[j]) by {
                    assert(out@[j] == before[j - 1]);
                    if j - 1 > at {
                        assert(ahead(1, before[at as int], before[j - 1]));
                    }
                }
                assert forall|i: int, j: int| 0 <= i < j < out.len() implies #[trigger] ahead(
                    1,
                    out@[i],
                    out@[j],
                ) by {
                    if i < at {
                        assert(out@[i] == before[i]);
                        if j == at {
                            assert(ahead(1, out@[i], p));
                        } else if j > at {
                            assert(out@[j] == before[j - 1]);
                            assert(ahead(1, before[i], before[j - 1]));
                        } else {
                            assert(out@[j] == before[j]);
                            assert(ahead(1, before[i], before[j]));
                        }
                    } else if i > at {
                        assert(out@[i] == before[i - 1]);
                        assert(out@[j] == before[j - 1]);
                        assert(ahead(1, before[i - 1], before[j - 1]));
                    }
                }
            }
        }
        proof {
            let t = points@.take(k as int + 1);
            let t0 = points@.take(k as int);
            assert(t =~= t0.push(p));
            assert forall|q: Point| out@.contains(q) <==> t.contains(q) by {
                if present {
                    if t.contains(q) {
                        let i = choose|i: int| 0 <= i < t.len() && t[i] == q;
                        if i == k {
                            assert(out@[at as int] == q);
                        } else {
                            assert(t0[i] == q);
                            assert(t0.contains(q));
                        }
                    }
                    if out@.contains(q) {
                        assert(t0.contains(q));
                        let i = choose|i: int| 0 <= i < t0.len() && t0[i] == q;
                        assert(t[i] == q);
                    }
                } else {
                    if out@.contains(q) {
                        let i = choose|i: int| 0 <= i < out.len() && out@[i] == q;
                        if i == at {
                            assert(t[k as int] == q);
                        } else {
                            let b = if i < at {
                                i
                            } else {
                                i - 1
                            };
                            assert(before[b] == q);
                            assert(before.contains(q));
                            let m = choose|m: int| 0 <= m < t0.len() && t0[m] == q;
                            assert(t[m] == q);
                        }
                    }
                    if t.contains(q) {
                        let i = choose|i: int| 0 <= i < t.len() && t[i] == q;
                        if i == k {
                            assert(out@[at as int] == q);
                        } else {
                            assert(t0[i] == q);
                            assert(t0.contains(q));
                            assert(before.contains(q));
                            let m = choose|m: int| 0 <= m < before.len() && before[m] == q;
                            let o = if m < at {
                                m
                            } else {
                                m + 1
                            };
                            assert(out@[o] == q);
                        }
                    }
                }
            }
        }
        k += 1;
    }
    assert(points@.take(k as int) =~= points@);
    out
}

// ---------------------------------------------------------------------------
// One chain.
// ---------------------------------------------------------------------------

/// `idx` picks the chain `h` out of the first `k` points, in order.
spec fn picks(pts: Seq<Point>, k: int, h: Seq<Point>, idx: Seq<int>) -> bool {
    &&& h.len() == idx.len()
    &&& h.len() >= 1
    &&& idx[0] == 0
    &&& forall|i: int| 0 <= i < h.len() ==> 0 <= #[trigger] idx[i] < k && h[i] == pts[idx[i]]
    &&& forall|i: int, j: int| 0 <= i < j < h.len() ==> #[trigger] idx[i] < #[trigger] idx[j]
}

/// Every consecutive triple turns strictly left.
pub open spec fn turns_left(h: Seq<Point>) -> bool {
    forall|i: int| 0 <= i && i + 2 < h.len() ==> #[trigger] left_at(h, i)
}

/// The corner after edge `i` turns strictly left.
pub open spec fn left_at(h: Seq<Point>, i: int) -> bool {
    seg::cross(h[i], h[i + 1], h[i + 2]) > 0
}

/// `q` is not right of edge `i`.
pub open spec fn not_right(h: Seq<Point>, i: int, q: Point) -> bool {
    seg::cross(h[i], h[i + 1], q) >= 0
}

/// None of the first `k` points is right of any edge.
pub open spec fn none_right(pts: Seq<Point>, k: int, h: Seq<Point>) -> bool {
    forall|i: int, j: int|
        0 <= i && i + 1 < h.len() && 0 <= j < k ==> #[trigger] not_right(h, i, pts[j])
}

/// One chain of the hull: the points of the ordered list `pts` that bound it on the right
/// of the walk from its first point to its last.
fn chain(pts: &Vec<Point>, Ghost(dir): Ghost<int>) -> (r: Vec<Point>)
    requires
        dir == 1 || dir == -1,
        pts.len() >= 1,
        limits::all_exact(pts@),
        ordered(dir, pts@),
    ensures
        r.len() >= 1,
        r@[0] == pts@[0],
        r@.last() == pts@.last(),
        pts.len() >= 2 ==> r.len() >= 2,
        r.len() <= pts.len(),
        forall|i: int| 0 <= i < r.len() ==> pts@.contains(#[trigger] r@[i]),
        ordered(dir, r@),
        turns_left(r@),
        none_right(pts@, pts.len() as int, r@),
{
    let mut h: Vec<Point> = Vec::new();
    h.push(pts[0]);
    let ghost mut idx: Seq<int> = seq![0int];
    let mut k: usize = 1;
    while k < pts.len()
        invariant
            dir == 1 || dir == -1,
            1 <= k <= pts.len(),
            limits::all_exact(pts@),
            ordered(dir, pts@),
            picks(pts@, k as int, h@, idx),
            idx.last() == k - 1,
            k >= 2 ==> h.len() >= 2,
            h.len() <= k,
            turns_left(h@),
            none_right(pts@, k as int, h@),
        decreases pts.len() - k,
    {
        let p = pts[k];
        assert(limits::pt_exact(pts@[k as int]));
        let mut go = true;
        while go
            invariant
                dir == 1 || dir == -1,
                1 <= k < pts.len(),
                p == pts@[k as int],
                limits::pt_exact(p),
                limits::all_exact(pts@),
                ordered(dir, pts@),
                picks(pts@, k as int, h@, idx),
                h.len() <= k,
                turns_left(h@),
                none_right(pts@, k as int, h@),
                forall|j: int|
                    idx.last() < j < k ==> seg::cross(h@.last(), p, #[trigger] pts@[j]) >= 0,
                !go ==> h.len() == 1 || seg::cross(h@[h.len() - 2], h@[h.len() - 1], p) > 0,
            decreases h.len() + if go {
                1int
            } else {
                0int
            },
        {
            let n = h.len();
            if n < 2 {
                go = false;
            } else {
                let a = h[n - 2];
                let b = h[n - 1];
                proof {
                    let (ia, ib) = (idx[n - 2], idx[n - 1]);
                    assert(a == pts@[ia] && b == pts@[ib] && ia < ib < k);
                    assert(limits::pt_exact(pts@[ia]) && limits::pt_exact(pts@[ib]));
                }
                if cross_of(a, b, p) > 0 {
                    go = false;
                } else {
                    proof {
                        let (ia, ib) = (idx[n - 2], idx[n - 1]);
                        assert(ahead(dir, pts@[ia], pts@[ib]));
                        assert(ahead(dir, pts@[ia], pts@[k as int]));
                        assert forall|j: int| ia < j < k implies seg::cross(
                            a,
                            p,
                            #[trigger] pts@[j],
                        ) >= 0 by {
                            assert(ahead(dir, pts@[ia], pts@[j]));
                            assert(not_right(h@, n - 2, pts@[j]));
                            fan_order(dir, a, b, p, pts@[j]);
                        }
                    }
                    let ghost h0 = h@;
                    let _ = h.pop();
                    proof {
                        idx = idx.drop_last();
                        assert(h@ =~= h0.drop_last());
                        assert forall|i: int| 0 <= i && i + 2 < h@.len() implies #[trigger] left_at(
                            h@,
                            i,
                        ) by {
                            assert(left_at(h0, i));
                        }
                        assert forall|i: int, j: int|
                            0 <= i && i + 1 < h@.len() && 0 <= j < k implies #[trigger] not_right(
                            h@,
                            i,
                            pts@[j],
                        ) by {
                            assert(not_right(h0, i, pts@[j]));
                        }
                    }
                }
            }
        }
        let ghost h0 = h@;
        let ghost n = h@.len() as int;
        let ghost t = h@.last();
        let ghost it = idx.last();
        proof {
            assert(t == pts@[it]);
            assert(ahead(dir, pts@[it], pts@[k as int]));
            // Every edge kept has `p` strictly on its left.
            edges_left_of_next(dir, pts@, k as int, h@, idx);
            // The new edge has every earlier point on its left.
            assert forall|j: int| 0 <= j <= k implies seg::cross(t, p, #[trigger] pts@[j]) >= 0 by {
                if j == k {
                    assert(seg::cross(t, p, p) == 0) by (nonlinear_arith)
                        requires
                            seg::cross(t, p, p) == (p.x - t.x) * (p.y - t.y) - (p.y - t.y) * (p.x - t.x),
                    ;
                } else if j == it {
                    assert(seg::cross(t, p, t) == (p.x - t.x) * 0 - (p.y - t.y) * 0);
                } else if j < it {
                    assert(n >= 2);
                    let s = h@[n - 2];
                    let is = idx[n - 2];
                    assert(s == pts@[is] && is < it);
                    assert(ahead(dir, pts@[is], pts@[it]));
                    assert(ahead(dir, pts@[j], pts@[it]));
                    assert(not_right(h@, n - 2, pts@[j]));
                    behind_is_left(dir, s, t, p, pts@[j]);
                }
            }
        }
        h.push(p);
        proof {
            idx = idx.push(k as int);
            assert forall|i: int| 0 <= i && i + 2 < h@.len() implies #[trigger] left_at(h@, i) by {
                if i + 2 < n {
                    assert(left_at(h0, i));
                } else {
                    assert(h@[i] == h0[n - 2] && h@[i + 1] == h0[n - 1] && h@[i + 2] == p);
                }
            }
            assert forall|i: int, j: int|
                0 <= i && i + 1 < h@.len() && 0 <= j < k + 1 implies #[trigger] not_right(
                h@,
                i,
                pts@[j],
            ) by {
                if i + 1 < n {
                    if j < k {
                        assert(not_right(h0, i, pts@[j]));
                    } else {
                        assert(strictly_left(h0, i, p));
                    }
                } else {
                    assert(h@[i] == t && h@[i + 1] == p);
                }
            }
        }
        k += 1;
    }
    proof {
        assert forall|i: int, j: int| 0 <= i < j < h.len() implies #[trigger] ahead(
            dir,
            h@[i],
            h@[j],
        ) by {
            assert(idx[i] < idx[j]);
            assert(ahead(dir, pts@[idx[i]], pts@[idx[j]]));
        }
        assert forall|i: int| 0 <= i < h.len() implies pts@.contains(#[trigger] h@[i]) by {
            assert(h@[i] == pts@[idx[i]]);
        }
    }
    h
}

/// `q` is strictly left of edge `i`.
spec fn strictly_left(h: Seq<Point>, i: int, q: Point) -> bool {
    seg::cross(h[i], h[i + 1], q) > 0
}

/// In a chain that turns strictly left at every corner and at its top towards `p`, the
/// next point is strictly left of every edge.
proof fn edges_left_of_next(dir: int, pts: Seq<Point>, k: int, h: Seq<Point>, idx: Seq<int>)
    requires
        dir == 1 || dir == -1,
        0 <= k < pts.len(),
        ordered(dir, pts),
        picks(pts, k, h, idx),
        turns_left(h),
        h.len() == 1 || seg::cross(h[h.len() - 2], h[h.len() - 1], pts[k]) > 0,
    ensures
        forall|i: int| 0 <= i && i + 1 < h.len() ==> #[trigger] strictly_left(h, i, pts[k]),
{
    assert forall|i: int| 0 <= i && i + 1 < h.len() implies #[trigger] strictly_left(
        h,
        i,
        pts[k],
    ) by {
        edge_left_of_next(dir, pts, k, h, idx, i);
    }
}

proof fn edge_left_of_next(dir: int, pts: Seq<Point>, k: int, h: Seq<Point>, idx: Seq<int>, i: int)
    requires
        dir == 1 || dir == -1,
        0 <= k < pts.len(),
        ordered(dir, pts),
        picks(pts, k, h, idx),
        turns_left(h),
        seg::cross(h[h.len() - 2], h[h.len() - 1], pts[k]) > 0,
        0 <= i,
        i + 1 < h.len(),
    ensures
        seg::cross(h[i], h[i + 1], pts[k]) > 0,
    decreases h.len() - i,
{
    if i + 2 < h.len() {
        edge_left_of_next(dir, pts, k, h, idx, i + 1);
        let (a, b, c) = (idx[i], idx[i + 1], idx[i + 2]);
        assert(h[i] == pts[a] && h[i + 1] == pts[b] && h[i + 2] == pts[c]);
        assert(a < b < c < k);
        assert(ahead(dir, pts[a], pts[b]));
        assert(ahead(dir, pts[b], pts[c]));
        assert(ahead(dir, pts[c], pts[k]));
        assert(left_at(h, i));
        left_extends(dir, h[i], h[i + 1], h[i + 2], pts[k]);
    }
}

// ---------------------------------------------------------------------------
// The hull.
// ---------------------------------------------------------------------------

/// The vertex after `i` around the ring.
pub open spec fn after(h: Seq<Point>, i: int) -> Point {
    if i + 1 < h.len() {
        h[i + 1]
    } else {
        h[i + 1 - h.len()]
    }
}

/// `q` is not right of the ring's edge `i`.
pub open spec fn ring_not_right(h: Seq<Point>, i: int, q: Point) -> bool {
    seg::cross(h[i], after(h, i), q) >= 0
}

/// The ring turns strictly left after edge `i`.
pub open spec fn ring_left_at(h: Seq<Point>, i: int) -> bool {
    seg::cross(
        h[i],
        after(h, i),
        after(
            h,
            if i + 1 < h.len() {
                i + 1
            } else {
                0
            },
        ),
    ) > 0
}

/// `h` is the convex hull of the nonempty set `pts`, its top vertex at `m`: a
/// counter-clockwise ring of points of the set that climbs from the first point (left to
/// right, then bottom to top) to the last and comes back down, turns strictly left at
/// every corner, and has no point of the set right of any edge.
pub open spec fn hull_with_top(pts: Seq<Point>, h: Seq<Point>, m: int) -> bool {
    &&& 0 <= m < h.len()
    &&& forall|i: int| 0 <= i < h.len() ==> pts.contains(#[trigger] h[i])
    &&& ordered(1, h.take(m + 1))
    &&& ordered(-1, h.skip(m))
    &&& forall|p: Point| #[trigger] pts.contains(p) ==> p == h[0] || ahead(1, h[0], p)
    &&& forall|p: Point| #[trigger] pts.contains(p) ==> p == h[m] || ahead(1, p, h[m])
    &&& forall|i: int, p: Point|
        0 <= i < h.len() && pts.contains(p) ==> #[trigger] ring_not_right(h, i, p)
    &&& h.len() >= 3 ==> forall|i: int| 0 <= i < h.len() ==> #[trigger] ring_left_at(h, i)
}

/// `h` is the convex hull of the set `pts`.
pub open spec fn is_hull(pts: Seq<Point>, h: Seq<Point>) -> bool {
    if pts.len() == 0 {
        h.len() == 0
    } else {
        exists|m: int| #[trigger] hull_with_top(pts, h, m)
    }
}

proof fn flat_cross(t: Point, p: Point)
    ensures
        seg::cross(t, t, p) == 0,
        seg::cross(t, p, p) == 0,
        seg::cross(t, p, t) == 0,
{
    let (x, y) = (p.x - t.x, p.y - t.y);
    assert(x * y - y * x == 0) by (nonlinear_arith);
    assert(0 * y - 0 * x == 0);
    assert(x * 0 - y * 0 == 0);
}

/// Points on one line make no triangle.
proof fn collinear_triple(s: Point, m: Point, a: Point, b: Point, c: Point)
    requires
        s.x != m.x || s.y != m.y,
        seg::cross(s, m, a) == 0,
        seg::cross(s, m, b) == 0,
        seg::cross(s, m, c) == 0,
    ensures
        seg::cross(a, b, c) == 0,
{
    let (dx, dy) = (m.x - s.x, m.y - s.y);
    let (ax, ay) = (a.x - s.x, a.y - s.y);
    let (bx, by) = (b.x - s.x, b.y - s.y);
    let (cx, cy) = (c.x - s.x, c.y - s.y);
    parallel(dx, dy, ax, ay, bx, by);
    parallel(dx, dy, bx, by, cx, cy);
    parallel(dx, dy, ax, ay, cx, cy);
    let (x1, y1, x2, y2) = (b.x - a.x, b.y - a.y, c.x - a.x, c.y - a.y);
    assert(x1 * y2 - y1 * x2 == (ax * by - ay * bx) + (bx * cy - by * cx) - (ax * cy - ay * cx))
        by (nonlinear_arith)
        requires
            x1 == bx - ax,
            y1 == by - ay,
            x2 == cx - ax,
            y2 == cy - ay,
    ;
}

proof fn parallel(dx: int, dy: int, ax: int, ay: int, bx: int, by: int)
    requires
        dx != 0 || dy != 0,
        vcross(dx, dy, ax, ay) == 0,
        vcross(dx, dy, bx, by) == 0,
    ensures
        vcross(ax, ay, bx, by) == 0,
{
    pluecker(ax, ay, dx, dy, bx, by);
    let k = vcross(ax, ay, bx, by);
    assert(vcross(ax, ay, dx, dy) == 0) by (nonlinear_arith)
        requires
            dx * ay - dy * ax == 0,
            vcross(ax, ay, dx, dy) == ax * dy - ay * dx,
    ;
    assert(ax * 0 == 0 && bx * 0 == 0 && ay * 0 == 0 && by * 0 == 0);
    assert(k == 0) by (nonlinear_arith)
        requires
            dx * k == 0,
            dy * k == 0,
            dx != 0 || dy != 0,
    ;
}

/// Where one chain ends and the other begins the ring still turns strictly left, unless
/// every point lies on one line.
proof fn junction(dir: int, pts: Seq<Point>, low: Seq<Point>, up: Seq<Point>, a: int, b: int, c: int)
    requires
        dir == 1 || dir == -1,
        low.len() >= 2,
        up.len() >= 2,
        low.last() == up[0],
        ahead(dir, low[low.len() - 2], low[low.len() - 1]),
        ahead(-dir, up[0], up[1]),
        none_right(pts, pts.len() as int, low),
        none_right(pts, pts.len() as int, up),
        pts.contains(up[1]),
        0 <= a < pts.len(),
        0 <= b < pts.len(),
        0 <= c < pts.len(),
        seg::cross(pts[a], pts[b], pts[c]) != 0,
    ensures
        seg::cross(low[low.len() - 2], low[low.len() - 1], up[1]) > 0,
{
    let s = low[low.len() - 2];
    let m = low[low.len() - 1];
    let t = up[1];
    let j = choose|j: int| 0 <= j < pts.len() && pts[j] == t;
    assert(not_right(low, low.len() - 2, pts[j]));
    if seg::cross(s, m, t) == 0 {
        assert forall|q: int| 0 <= q < pts.len() implies seg::cross(s, m, #[trigger] pts[q]) == 0 by {
            assert(not_right(low, low.len() - 2, pts[q]));
            assert(not_right(up, 0, pts[q]));
            back_and_forth(dir, s, m, t, pts[q]);
        }
        assert(s.x != m.x || s.y != m.y) by {
            assert(dir * 0 == 0);
        }
        collinear_triple(s, m, pts[a], pts[b], pts[c]);
    }
}

/// A point on neither side's right of a line walked forth and back is on the line.
proof fn back_and_forth(dir: int, s: Point, m: Point, t: Point, q: Point)
    requires
        dir == 1 || dir == -1,
        ahead(dir, s, m),
        ahead(-dir, m, t),
        seg::cross(s, m, t) == 0,
        seg::cross(s, m, q) >= 0,
        seg::cross(m, t, q) >= 0,
    ensures
        seg::cross(s, m, q) == 0,
{
    let (ax, ay) = (m.x - s.x, m.y - s.y);
    let (bx, by) = (t.x - m.x, t.y - m.y);
    let (cx, cy) = (q.x - m.x, q.y - m.y);
    cross_by_steps(s, m, t);
    cross_by_steps(s, m, q);
    let big_a = seg::cross(s, m, q);
    let big_b = seg::cross(m, t, q);
    assert(big_b == vcross(bx, by, cx, cy));
    assert(vcross(ax, ay, bx, by) == 0);
    pluecker(ax, ay, bx, by, cx, cy);
    assert(cx * 0 == 0 && cy * 0 == 0);
    // b·A = a·B, with a forward and b backward along `dir`.
    assert(bx * big_a == ax * big_b);
    assert(by * big_a == ay * big_b);
    if big_a > 0 {
        let (fx, fy) = (dir * ax, dir * ay);
        let (gx, gy) = (-dir * bx, -dir * by);
        assert(-(gx * big_a) == fx * big_b && -(gy * big_a) == fy * big_b) by (nonlinear_arith)
            requires
                bx * big_a == ax * big_b,
                by * big_a == ay * big_b,
                fx == dir * ax,
                fy == dir * ay,
                gx == -dir * bx,
                gy == -dir * by,
                dir == 1 || dir == -1,
        ;
        if gx > 0 {
            assert(false) by (nonlinear_arith)
                requires
                    -(gx * big_a) == fx * big_b,
                    gx > 0,
                    big_a > 0,
                    fx >= 0,
                    big_b >= 0,
            ;
        } else {
            assert(fx * big_b == 0) by (nonlinear_arith)
                requires
                    -(gx * big_a) == fx * big_b,
                    gx == 0,
            ;
            assert(fy * big_b < 0) by (nonlinear_arith)
                requires
                    -(gy * big_a) == fy * big_b,
                    gy > 0,
                    big_a > 0,
            ;
            assert(fy < 0 && big_b > 0) by (nonlinear_arith)
                requires
                    fy * big_b < 0,
                    big_b >= 0,
            ;
            assert(false) by (nonlinear_arith)
                requires
                    fx * big_b == 0,
                    big_b > 0,
                    fx > 0,
            ;
        }
    }
}

fn reversed(v: &Vec<Point>) -> (r: Vec<Point>)
    ensures
        r.len() == v.len(),
        forall|i: int| 0 <= i < r.len() ==> #[trigger] r@[i] == v@[v.len() - 1 - i],
{
    let mut out: Vec<Point> = Vec::new();
    let mut i: usize = v.len();
    while i > 0
        invariant
            i <= v.len(),
            out.len() == v.len() - i,
            forall|j: int| 0 <= j < out.len() ==> #[trigger] out@[j] == v@[v.len() - 1 - j],
        decreases i,
    {
        i -= 1;
        out.push(v[i]);
    }
    out
}

proof fn ahead_flips(a: Point, b: Point)
    ensures
        ahead(-1, a, b) == ahead(1, b, a),
{
    assert(-1 * (b.x - a.x) == a.x - b.x && -1 * (b.y - a.y) == a.y - b.y);
    assert(1 * (a.x - b.x) == a.x - b.x && 1 * (a.y - b.y) == a.y - b.y);
}

/// The convex hull of `points` as a counter-clockwise ring of its extreme vertices,
/// starting at the leftmost (lowest of those). Points inside an edge are dropped, and so
/// are duplicates; points all on one line give their two extremes.
pub fn convex_hull(points: &[Point]) -> (r: Vec<Point>)
    requires
        limits::all_exact(points@),
    ensures
        is_hull(points@, r@),
        r.len() <= 2 * points.len(),
{
    let pts = sorted_distinct(points);
    let n = pts.len();
    if n == 0 {
        proof {
            if points.len() > 0 {
                assert(points@.contains(points@[0]));
                assert(pts@.contains(points@[0]));
            }
        }
        return pts;
    }
    proof {
        assert forall|i: int| 0 <= i < n implies limits::pt_exact(#[trigger] pts@[i]) by {
            assert(pts@.contains(pts@[i]));
            assert(points@.contains(pts@[i]));
            let k = choose|k: int| 0 <= k < points.len() && points@[k] == pts@[i];
            assert(limits::pt_exact(points@[k]));
        }
    }
    let back = reversed(&pts);
    proof {
        assert forall|i: int, j: int| 0 <= i < j < back.len() implies #[trigger] ahead(
            -1,
            back@[i],
            back@[j],
        ) by {
            ahead_flips(back@[i], back@[j]);
            assert(ahead(1, pts@[n - 1 - j], pts@[n - 1 - i]));
        }
        assert forall|i: int| 0 <= i < back.len() implies limits::pt_exact(#[trigger] back@[i]) by {
            assert(limits::pt_exact(pts@[n - 1 - i]));
        }
    }
    let low = chain(&pts, Ghost(1));
    let up = chain(&back, Ghost(-1));
    let mut out: Vec<Point> = Vec::new();
    if n == 1 {
        out.push(pts[0]);
        proof {
            single_hull(points@, pts@, out@);
        }
        return out;
    }
    let mut i: usize = 0;
    while i + 1 < low.len()
        invariant
            i + 1 <= low.len(),
            out.len() == i,
            forall|j: int| 0 <= j < i ==> out@[j] == low@[j],
        decreases low.len() - i,
    {
        out.push(low[i]);
        i += 1;
    }
    let mut k: usize = 0;
    while k + 1 < up.len()
        invariant
            low.len() >= 1,
            k + 1 <= up.len(),
            out.len() == low.len() - 1 + k,
            forall|j: int| 0 <= j < low.len() - 1 ==> out@[j] == low@[j],
            forall|j: int| 0 <= j < k ==> out@[low.len() - 1 + j] == up@[j],
        decreases up.len() - k,
    {
        out.push(up[k]);
        k += 1;
    }
    proof {
        assert(back@[0] == pts@[n - 1] && back@[n - 1] == pts@[0]);
        none_right_reversed(pts@, back@, up@);
        assert forall|j: int| 0 <= j < up.len() implies pts@.contains(#[trigger] up@[j]) by {
            assert(back@.contains(up@[j]));
            let b = choose|b: int| 0 <= b < back.len() && back@[b] == up@[j];
            assert(pts@[n - 1 - b] == up@[j]);
        }
        ring_from_chains(pts@, low@, up@, out@);
        transfer_hull(points@, pts@, out@, low.len() - 1);
    }
    out
}

proof fn none_right_reversed(pts: Seq<Point>, back: Seq<Point>, h: Seq<Point>)
    requires
        back.len() == pts.len(),
        forall|i: int| 0 <= i < back.len() ==> #[trigger] back[i] == pts[pts.len() - 1 - i],
        none_right(back, back.len() as int, h),
    ensures
        none_right(pts, pts.len() as int, h),
{
    assert forall|i: int, j: int|
        0 <= i && i + 1 < h.len() && 0 <= j < pts.len() implies #[trigger] not_right(h, i, pts[j]) by {
        let b = pts.len() - 1 - j;
        assert(back[b] == pts[j]);
        assert(not_right(h, i, back[b]));
    }
}

proof fn single_hull(points: Seq<Point>, pts: Seq<Point>, h: Seq<Point>)
    requires
        points.len() > 0,
        pts.len() == 1,
        h == seq![pts[0]],
        forall|p: Point| pts.contains(p) <==> points.contains(p),
    ensures
        is_hull(points, h),
{
    assert(pts.contains(pts[0]));
    assert forall|p: Point| #[trigger] points.contains(p) implies p == h[0] by {
        assert(pts.contains(p));
    }
    assert forall|i: int, p: Point|
        0 <= i < h.len() && points.contains(p) implies #[trigger] ring_not_right(h, i, p) by {
        flat_cross(h[0], p);
    }
    assert(hull_with_top(points, h, 0));
}

/// The hull of the distinct points is the hull of the points.
proof fn transfer_hull(points: Seq<Point>, pts: Seq<Point>, h: Seq<Point>, m: int)
    requires
        forall|p: Point| pts.contains(p) <==> points.contains(p),
        hull_with_top(pts, h, m),
    ensures
        is_hull(points, h),
{
    assert(pts.contains(h[0]));
    assert(points.contains(h[0]));
    assert forall|i: int| 0 <= i < h.len() implies points.contains(#[trigger] h[i]) by {
        assert(pts.contains(h[i]));
    }
    assert forall|i: int, p: Point|
        0 <= i < h.len() && points.contains(p) implies #[trigger] ring_not_right(h, i, p) by {
        assert(pts.contains(p));
    }
    assert forall|p: Point| #[trigger] points.contains(p) implies p == h[0] || ahead(1, h[0], p) by {
        assert(pts.contains(p));
    }
    assert forall|p: Point| #[trigger] points.contains(p) implies p == h[m] || ahead(1, p, h[m]) by {
        assert(pts.contains(p));
    }
    assert(hull_with_top(points, h, m));
}

/// The lower and the upper chain, each without its last point, form the hull ring.
proof fn ring_from_chains(pts: Seq<Point>, low: Seq<Point>, up: Seq<Point>, h: Seq<Point>)
    requires
        pts.len() >= 2,
        ordered(1, pts),
        low.len() >= 2,
        up.len() >= 2,
        low[0] == pts[0],
        low.last() == pts.last(),
        up[0] == pts.last(),
        up.last() == pts[0],
        forall|i: int| 0 <= i < low.len() ==> pts.contains(#[trigger] low[i]),
        forall|i: int| 0 <= i < up.len() ==> pts.contains(#[trigger] up[i]),
        ordered(1, low),
        ordered(-1, up),
        turns_left(low),
        turns_left(up),
        none_right(pts, pts.len() as int, low),
        none_right(pts, pts.len() as int, up),
        h.len() == low.len() - 1 + up.len() - 1,
        forall|j: int| 0 <= j < low.len() - 1 ==> h[j] == low[j],
        forall|j: int| 0 <= j < up.len() - 1 ==> h[low.len() - 1 + j] == up[j],
    ensures
        hull_with_top(pts, h, low.len() - 1),
{
    let m = low.len() - 1;
    let l = low.len() as int;
    let u = up.len() as int;
    assert(h[m] == up[0]);
    assert(h.take(m + 1) =~= low);
    assert forall|i: int, j: int| 0 <= i < j < h.skip(m).len() implies #[trigger] ahead(
        -1,
        h.skip(m)[i],
        h.skip(m)[j],
    ) by {
        assert(h.skip(m)[i] == up[i] && h.skip(m)[j] == up[j]);
        assert(ahead(-1, up[i], up[j]));
    }
    assert forall|i: int| 0 <= i < h.len() implies pts.contains(#[trigger] h[i]) by {
        if i < m {
            assert(h[i] == low[i]);
        } else {
            assert(h[i] == up[i - m]);
        }
    }
    assert forall|p: Point| #[trigger] pts.contains(p) implies (p == h[0] || ahead(1, h[0], p)) && (p
        == h[m] || ahead(1, p, h[m])) by {
        let j = choose|j: int| 0 <= j < pts.len() && pts[j] == p;
        if j > 0 {
            assert(ahead(1, pts[0], pts[j]));
        }
        if j < pts.len() - 1 {
            assert(ahead(1, pts[j], pts[pts.len() - 1]));
        }
    }
    assert forall|i: int, p: Point|
        0 <= i < h.len() && pts.contains(p) implies #[trigger] ring_not_right(h, i, p) by {
        let j = choose|j: int| 0 <= j < pts.len() && pts[j] == p;
        if i < m {
            assert(h[i] == low[i] && after(h, i) == low[i + 1]);
            assert(not_right(low, i, pts[j]));
        } else {
            assert(h[i] == up[i - m]);
            assert(after(h, i) == up[i - m + 1]) by {
                if i + 1 < h.len() {
                    assert(h[i + 1] == up[i + 1 - m]);
                }
            }
            assert(not_right(up, i - m, pts[j]));
        }
    }
    if h.len() >= 3 {
        // Some corner of a chain turns, so the points are not all on one line.
        let (a, b, c) = if l >= 3 {
            (low[0], low[1], low[2])
        } else {
            (up[0], up[1], up[2])
        };
        if l >= 3 {
            assert(left_at(low, 0));
        } else {
            assert(left_at(up, 0));
        }
        assert(pts.contains(a) && pts.contains(b) && pts.contains(c));
        let ia = choose|j: int| 0 <= j < pts.len() && pts[j] == a;
        let ib = choose|j: int| 0 <= j < pts.len() && pts[j] == b;
        let ic = choose|j: int| 0 <= j < pts.len() && pts[j] == c;
        assert(ahead(1, low[l - 2], low[l - 1]));
        assert(ahead(-1, up[0], up[1]));
        assert(pts.contains(up[1]) && pts.contains(low[1]));
        junction(1, pts, low, up, ia, ib, ic);
        assert(ahead(-1, up[u - 2], up[u - 1]));
        assert(ahead(1, low[0], low[1]));
        junction(-1, pts, up, low, ia, ib, ic);
        assert forall|i: int| 0 <= i < h.len() implies #[trigger] ring_left_at(h, i) by {
            if i + 1 < m {
                assert(left_at(low, i));
            } else if i + 1 == m {
                assert(h[i] == low[l - 2] && after(h, i) == up[0] && up[0] == low[l - 1]);
                assert(after(h, i + 1) == up[1]) by {
                    if i + 2 < h.len() {
                        assert(h[i + 2] == up[1]);
                    }
                }
            } else if i + 2 < h.len() {
                assert(h[i] == up[i - m] && h[i + 1] == up[i - m + 1] && h[i + 2] == up[i - m + 2]);
                assert(left_at(up, i - m));
            } else if i + 1 < h.len() {
                assert(h[i] == up[i - m] && h[i + 1] == up[i - m + 1] && after(h, i + 1) == up[i - m
                    + 2]);
                assert(left_at(up, i - m));
            } else {
                assert(h[i] == up[u - 2] && after(h, i) == low[0] && after(h, 0) == low[1]) by {
                    if m > 1 {
                        assert(h[1] == low[1]);
                    } else {
                        assert(h[1] == up[0]);
                    }
                }
            }
        }
    }
}

// ---------------------------------------------------------------------------
// Laws.
// ---------------------------------------------------------------------------

/// With `b` straight beyond `a`, a left turn at `a` leaves `b` to the right.
proof fn beyond_is_right(dir: int, v: Point, a: Point, b: Point, c: Point)
    requires
        dir == 1 || dir == -1,
        ahead(dir, v, a),
        ahead(dir, a, b),
        seg::cross(v, a, b) == 0,
        seg::cross(v, a, c) > 0,
    ensures
        seg::cross(a, c, b) < 0,
{
    let (ux, uy) = (dir * (a.x - v.x), dir * (a.y - v.y));
    let (wx, wy) = (dir * (b.x - a.x), dir * (b.y - a.y));
    let (xx, xy) = (dir * (c.x - a.x), dir * (c.y - a.y));
    cross_by_steps(v, a, b);
    cross_by_steps(v, a, c);
    turned_cross(dir, a.x - v.x, a.y - v.y, b.x - a.x, b.y - a.y);
    turned_cross(dir, a.x - v.x, a.y - v.y, c.x - a.x, c.y - a.y);
    turned_cross(dir, b.x - a.x, b.y - a.y, c.x - a.x, c.y - a.y);
    pluecker(ux, uy, wx, wy, xx, xy);
    let p = vcross(ux, uy, xx, xy);
    let q = vcross(wx, wy, xx, xy);
    assert(vcross(ux, uy, wx, wy) == 0);
    assert(xx * vcross(ux, uy, wx, wy) == 0) by (nonlinear_arith)
        requires
            vcross(ux, uy, wx, wy) == 0,
    ;
    assert(xy * vcross(ux, uy, wx, wy) == 0) by (nonlinear_arith)
        requires
            vcross(ux, uy, wx, wy) == 0,
    ;
    assert(q > 0) by (nonlinear_arith)
        requires
            p > 0,
            wx * p == ux * q,
            wy * p == uy * q,
            ux > 0 || (ux == 0 && uy > 0),
            wx > 0 || (wx == 0 && wy > 0),
    ;
    cross_rotates(a, b, c);
    assert(seg::cross(a, b, c) == vcross(b.x - a.x, b.y - a.y, c.x - a.x, c.y - a.y));
}

/// Two hull rings that agree at a vertex, and go on in the same direction, agree at the
/// next.
proof fn next_agrees(dir: int, pts: Seq<Point>, h: Seq<Point>, g: Seq<Point>, i: int)
    requires
        dir == 1 || dir == -1,
        3 <= h.len(),
        3 <= g.len(),
        0 <= i < h.len(),
        0 <= i < g.len(),
        h[i] == g[i],
        pts.contains(after(h, i)),
        pts.contains(after(g, i)),
        ahead(dir, h[i], after(h, i)),
        ahead(dir, g[i], after(g, i)),
        forall|j: int, p: Point|
            0 <= j < h.len() && pts.contains(p) ==> #[trigger] ring_not_right(h, j, p),
        forall|j: int, p: Point|
            0 <= j < g.len() && pts.contains(p) ==> #[trigger] ring_not_right(g, j, p),
        forall|j: int| 0 <= j < h.len() ==> #[trigger] ring_left_at(h, j),
        forall|j: int| 0 <= j < g.len() ==> #[trigger] ring_left_at(g, j),
    ensures
        after(h, i) == after(g, i),
{
    let (v, a, b) = (h[i], after(h, i), after(g, i));
    assert(ring_not_right(h, i, b));
    assert(ring_not_right(g, i, a));
    cross_rotates(v, a, b);
    assert(seg::cross(v, a, b) == 0);
    if a != b {
        if ahead(dir, a, b) {
            overtaken(dir, pts, h, i, b);
        } else {
            assert(ahead(dir, b, a));
            overtaken(dir, pts, g, i, a);
        }
    }
}

/// No point of the set lies straight beyond an edge of its hull ring.
proof fn overtaken(dir: int, pts: Seq<Point>, h: Seq<Point>, i: int, b: Point)
    requires
        dir == 1 || dir == -1,
        3 <= h.len(),
        0 <= i < h.len(),
        pts.contains(b),
        ahead(dir, h[i], after(h, i)),
        forall|j: int, p: Point|
            0 <= j < h.len() && pts.contains(p) ==> #[trigger] ring_not_right(h, j, p),
        forall|j: int| 0 <= j < h.len() ==> #[trigger] ring_left_at(h, j),
    ensures
        !(ahead(dir, after(h, i), b) && seg::cross(h[i], after(h, i), b) == 0),
{
    let n: int = if i + 1 < h.len() {
        i + 1
    } else {
        0
    };
    let (v, a, c) = (h[i], h[n], after(h, n));
    assert(after(h, i) == a);
    assert(ring_left_at(h, i));
    assert(ring_not_right(h, n, b));
    if ahead(dir, a, b) && seg::cross(v, a, b) == 0 {
        beyond_is_right(dir, v, a, b, c);
    }
}

/// A set whose hull has fewer than three corners has no other hull.
proof fn small_hull_is_unique(pts: Seq<Point>, h: Seq<Point>, g: Seq<Point>, m: int, n: int)
    requires
        pts.len() > 0,
        hull_with_top(pts, h, m),
        hull_with_top(pts, g, n),
        h.len() < 3,
    ensures
        h == g,
{
    let (s, t) = (h[0], h[m]);
    assert(pts.contains(s) && pts.contains(t) && pts.contains(g[0]) && pts.contains(g[n]));
    assert(g[0] == s && g[n] == t);
    if s == t {
        assert forall|p: Point| #[trigger] pts.contains(p) implies p == s by {}
        one_point_ring(pts, h, m, s);
        one_point_ring(pts, g, n, s);
        assert(h =~= g);
    } else {
        assert(m == 1 && h.len() == 2) by {
            if m == 0 {
                assert(h[0] == h[m]);
            }
        }
        assert forall|p: Point| #[trigger] pts.contains(p) implies seg::cross(s, t, p) == 0 by {
            assert(ring_not_right(h, 0, p));
            assert(ring_not_right(h, 1, p));
            cross_rotates(s, t, p);
            cross_rotates(t, s, p);
            cross_rotates(t, p, s);
        }
        if g.len() >= 3 {
            assert(ring_left_at(g, 0));
            assert(pts.contains(g[0]) && pts.contains(g[1]) && pts.contains(g[2]));
            collinear_triple(s, t, g[0], g[1], g[2]);
            assert(after(g, 0) == g[1] && after(g, 1) == g[2]);
        }
        if n == 0 {
            assert(g[0] == g[n]);
        }
        assert(g.len() == 2 && n == 1);
        assert(h =~= g);
    }
}

proof fn one_point_ring(pts: Seq<Point>, h: Seq<Point>, m: int, s: Point)
    requires
        hull_with_top(pts, h, m),
        forall|p: Point| #[trigger] pts.contains(p) ==> p == s,
    ensures
        h.len() == 1,
        h[0] == s,
{
    assert(pts.contains(h[0]) && pts.contains(h[m]));
    if m > 0 {
        let low = h.take(m + 1);
        assert(ahead(1, low[0], low[m]));
        assert(low[0] == h[0] && low[m] == h[m]);
    }
    if h.len() > 1 {
        let up = h.skip(m);
        assert(up[0] == h[0] && up[1] == h[1]);
        assert(pts.contains(h[1]));
        assert(ahead(-1, up[0], up[1]));
    }
}

/// The rings agree up to position `k` of the climb.
proof fn climbs_agree(pts: Seq<Point>, h: Seq<Point>, g: Seq<Point>, m: int, n: int, k: int)
    requires
        hull_with_top(pts, h, m),
        hull_with_top(pts, g, n),
        3 <= h.len(),
        3 <= g.len(),
        0 <= k <= m,
        k <= n,
    ensures
        h[k] == g[k],
    decreases k,
{
    assert(pts.contains(h[0]) && pts.contains(g[0]));
    if k == 0 {
        assert(h[0] == g[0] || (ahead(1, h[0], g[0]) && ahead(1, g[0], h[0])));
    } else {
        climbs_agree(pts, h, g, m, n, k - 1);
        let (lh, lg) = (h.take(m + 1), g.take(n + 1));
        assert(ahead(1, lh[k - 1], lh[k]));
        assert(ahead(1, lg[k - 1], lg[k]));
        assert(after(h, k - 1) == h[k] && after(g, k - 1) == g[k]);
        assert(pts.contains(h[k]) && pts.contains(g[k]));
        next_agrees(1, pts, h, g, k - 1);
    }
}

/// The climbs end at the same position.
proof fn tops_agree(pts: Seq<Point>, h: Seq<Point>, g: Seq<Point>, m: int, n: int)
    requires
        hull_with_top(pts, h, m),
        hull_with_top(pts, g, n),
        3 <= h.len(),
        3 <= g.len(),
        m <= n,
    ensures
        m == n,
{
    climbs_agree(pts, h, g, m, n, m);
    assert(pts.contains(h[m]) && pts.contains(g[n]));
    if m < n {
        let lg = g.take(n + 1);
        assert(ahead(1, lg[m], lg[n]));
        assert(lg[m] == g[m] && lg[n] == g[n]);
    }
}

/// The first point of a ring does not come again on the way down.
proof fn start_is_not_repeated(pts: Seq<Point>, h: Seq<Point>, m: int, k: int)
    requires
        hull_with_top(pts, h, m),
        3 <= h.len(),
        m < k < h.len(),
    ensures
        h[k] != h[0],
{
    if h[k] == h[0] {
        if k + 1 < h.len() {
            let up = h.skip(m);
            assert(ahead(-1, up[k - m], up[k + 1 - m]));
            assert(up[k - m] == h[k] && up[k + 1 - m] == h[k + 1]);
            assert(pts.contains(h[k + 1]));
            assert(h[k + 1] == h[0] || ahead(1, h[0], h[k + 1]));
        } else {
            assert(ring_left_at(h, k - 1));
            assert(after(h, k - 1) == h[k] && after(h, k) == h[0]);
            cross_by_steps(h[k - 1], h[k], h[0]);
            assert(vcross(h[k].x - h[k - 1].x, h[k].y - h[k - 1].y, 0, 0) == 0)
                by (nonlinear_arith);
        }
    }
}

/// The rings agree up to position `k` of the way down.
proof fn descents_agree(pts: Seq<Point>, h: Seq<Point>, g: Seq<Point>, m: int, k: int)
    requires
        hull_with_top(pts, h, m),
        hull_with_top(pts, g, m),
        3 <= h.len(),
        3 <= g.len(),
        m <= k,
        k < h.len() || k < g.len(),
    ensures
        k < h.len(),
        k < g.len(),
        h[k] == g[k],
    decreases k,
{
    if k == m {
        climbs_agree(pts, h, g, m, m, k);
    } else {
        descents_agree(pts, h, g, m, k - 1);
        climbs_agree(pts, h, g, m, m, 0);
        down_step(pts, h, m, k - 1);
        down_step(pts, g, m, k - 1);
        next_agrees(-1, pts, h, g, k - 1);
        if k < h.len() {
            start_is_not_repeated(pts, h, m, k);
        }
        if k < g.len() {
            start_is_not_repeated(pts, g, m, k);
        }
    }
}

/// Every step on the way down goes back.
proof fn down_step(pts: Seq<Point>, h: Seq<Point>, m: int, k: int)
    requires
        hull_with_top(pts, h, m),
        3 <= h.len(),
        m <= k < h.len(),
    ensures
        ahead(-1, h[k], after(h, k)),
        pts.contains(after(h, k)),
{
    if k + 1 < h.len() {
        let up = h.skip(m);
        assert(ahead(-1, up[k - m], up[k + 1 - m]));
        assert(pts.contains(h[k + 1]));
    } else {
        assert(pts.contains(h[0]) && pts.contains(h[k]));
        if k > m {
            start_is_not_repeated(pts, h, m, k);
        } else {
            let low = h.take(m + 1);
            assert(ahead(1, low[0], low[m]));
        }
        assert(ahead(1, h[0], h[k]));
    }
}

/// A set has one hull: the result does not depend on how, or in which order, the points
/// are given.
pub proof fn hull_is_unique(pts: Seq<Point>, h: Seq<Point>, g: Seq<Point>)
    requires
        is_hull(pts, h),
        is_hull(pts, g),
    ensures
        h == g,
{
    if pts.len() == 0 {
        assert(h =~= g);
    } else {
        let m = choose|m: int| #[trigger] hull_with_top(pts, h, m);
        let n = choose|n: int| #[trigger] hull_with_top(pts, g, n);
        if h.len() < 3 {
            small_hull_is_unique(pts, h, g, m, n);
        } else if g.len() < 3 {
            small_hull_is_unique(pts, g, h, n, m);
        } else {
            if m <= n {
                tops_agree(pts, h, g, m, n);
            } else {
                tops_agree(pts, g, h, n, m);
            }
            let (a, b) = (h.len() - 1, g.len() - 1);
            descents_agree(pts, h, g, m, a);
            descents_agree(pts, h, g, m, b);
            assert forall|k: int| 0 <= k < h.len() implies h[k] == g[k] by {
                if k <= m {
                    climbs_agree(pts, h, g, m, m, k);
                } else {
                    descents_agree(pts, h, g, m, k);
                }
            }
            assert(h =~= g);
        }
    }
}

} // verus!
