//! The nearest boundary point: the pull-back for a component outside the board.

use super::path;
use super::shape;
use super::shape::Shape2D;
use crate::binary64;
use crate::binary64::Real;
use crate::coord::Point;
use vstd::prelude::*;

verus! {

/// The projection parameter of `p` on `a`–`b`, held to `[0, 1]`; `len2` is the squared
/// length.
pub open spec fn projection(p: Point, a: Point, vx: Real, vy: Real, len2: Real) -> Real {
    let dot = binary64::sum(
        binary64::product(binary64::of_int(p.x - a.x), vx),
        binary64::product(binary64::of_int(p.y - a.y), vy),
    );
    let t = binary64::quotient(dot, len2);
    let one = binary64::of_int(1);
    if binary64::below(t, binary64::zero()) {
        binary64::zero()
    } else if binary64::below(one, t) {
        one
    } else {
        t
    }
}

/// The lattice point nearest to the foot of `p` on the segment `a`–`b`.
#[verifier::opaque]
pub open spec fn foot(p: Point, a: Point, b: Point) -> Point {
    let vx = binary64::of_int(b.x - a.x);
    let vy = binary64::of_int(b.y - a.y);
    let len2 = path::sum_squares(vx, vy);
    if len2.mant == 0 {
        a
    } else {
        let t = projection(p, a, vx, vy, len2);
        Point {
            x: binary64::nearest(
                binary64::sum(binary64::of_int(a.x as int), binary64::product(t, vx)),
            ) as i64,
            y: binary64::nearest(
                binary64::sum(binary64::of_int(a.y as int), binary64::product(t, vy)),
            ) as i64,
        }
    }
}

/// A coordinate difference held to the coordinate type.
pub open spec fn held(d: int) -> int {
    if d > i64::MAX {
        i64::MAX as int
    } else if d < i64::MIN {
        i64::MIN as int
    } else {
        d
    }
}

/// The squared distance between two points.
pub open spec fn gap2(q: Point, p: Point) -> int {
    held(q.x - p.x) * held(q.x - p.x) + held(q.y - p.y) * held(q.y - p.y)
}

/// `r` is the foot of `p` on some edge, no other edge has a nearer foot, and no earlier
/// edge one as near. With no edges `r` is `p`.
pub open spec fn is_closest(p: Point, es: Seq<(Point, Point)>, r: Point) -> bool {
    if es.len() == 0 {
        r == p
    } else {
        exists|i: int| #[trigger] closest_at(p, es, i) && r == foot(p, es[i].0, es[i].1)
    }
}

/// Edge `i` has the nearest foot, and is the first that does.
pub open spec fn closest_at(p: Point, es: Seq<(Point, Point)>, i: int) -> bool {
    &&& 0 <= i < es.len()
    &&& forall|j: int| 0 <= j < es.len() ==> foot_gap(p, es, i) <= #[trigger] foot_gap(p, es, j)
    &&& forall|j: int| 0 <= j < i ==> foot_gap(p, es, i) < #[trigger] foot_gap(p, es, j)
}

/// The squared distance from `p` to its foot on edge `i`.
pub open spec fn foot_gap(p: Point, es: Seq<(Point, Point)>, i: int) -> int {
    gap2(foot(p, es[i].0, es[i].1), p)
}

/// The point on segment `a`–`b` closest to `p`, rounded to the lattice.
pub fn closest_on_segment(p: Point, a: Point, b: Point) -> (r: Point)
    ensures
        r == foot(p, a, b),
{
    proof {
        reveal(foot);
    }
    let vx = Real::from_int(b.x as i128 - a.x as i128);
    let vy = Real::from_int(b.y as i128 - a.y as i128);
    let len2 = vx.times(vx).plus(vy.times(vy));
    if len2.mant == 0 {
        return a;
    }
    let wx = Real::from_int(p.x as i128 - a.x as i128);
    let wy = Real::from_int(p.y as i128 - a.y as i128);
    let t0 = wx.times(vx).plus(wy.times(vy)).over(len2);
    let zero = Real { neg: false, mant: 0, exp: 0 };
    let one = Real::from_int(1);
    let t = if t0.is_below(zero) {
        zero
    } else if one.is_below(t0) {
        one
    } else {
        t0
    };
    Point {
        x: Real::from_int(a.x as i128).plus(t.times(vx)).round(),
        y: Real::from_int(a.y as i128).plus(t.times(vy)).round(),
    }
}

fn held_square(d: i128) -> (r: u128)
    requires
        -0x1_0000_0000_0000_0000 < d < 0x1_0000_0000_0000_0000,
    ensures
        r == held(d as int) * held(d as int),
        r <= 0x4000_0000_0000_0000_0000_0000_0000_0000,
{
    let m: u128 = if d >= 0 {
        if d > 0x7fff_ffff_ffff_ffff {
            0x7fff_ffff_ffff_ffff
        } else {
            d as u128
        }
    } else {
        if d < -0x8000_0000_0000_0000 {
            0x8000_0000_0000_0000
        } else {
            (-d) as u128
        }
    };
    proof {
        let h = held(d as int);
        assert(m * m == h * h) by (nonlinear_arith)
            requires
                m == h || m == -h,
        ;
        assert(m * m <= 0x4000_0000_0000_0000_0000_0000_0000_0000) by (nonlinear_arith)
            requires
                0 <= m <= 0x8000_0000_0000_0000,
        ;
        assert(m * m >= 0) by (nonlinear_arith);
    }
    m * m
}

impl Shape2D {
    /// The point on this shape's boundary closest to `p`. A shape without edges gives
    /// `p` back.
    pub fn closest_boundary_point(&self, p: Point) -> (r: Point)
        requires
            shape::shape_safe(self@),
        ensures
            is_closest(p, shape::edges(self@), r),
    {
        let es = self.segments();
        if es.len() == 0 {
            return p;
        }
        let mut best = closest_on_segment(p, es[0].0, es[0].1);
        let mut best_d2 = held_square(best.x as i128 - p.x as i128) + held_square(
            best.y as i128 - p.y as i128,
        );
        let ghost mut at: int = 0;
        let mut i: usize = 1;
        while i < es.len()
            invariant
                1 <= i <= es.len(),
                0 <= at < i,
                best == foot(p, es@[at].0, es@[at].1),
                best_d2 == foot_gap(p, es@, at),
                forall|j: int| 0 <= j < i ==> foot_gap(p, es@, at) <= #[trigger] foot_gap(p, es@, j),
                forall|j: int| 0 <= j < at ==> foot_gap(p, es@, at) < #[trigger] foot_gap(p, es@, j),
            decreases es.len() - i,
        {
            let q = closest_on_segment(p, es[i].0, es[i].1);
            let d2 = held_square(q.x as i128 - p.x as i128) + held_square(
                q.y as i128 - p.y as i128,
            );
            assert(d2 == foot_gap(p, es@, i as int));
            if d2 < best_d2 {
                best_d2 = d2;
                best = q;
                proof {
                    at = i as int;
                }
            }
            i += 1;
        }
        assert(closest_at(p, es@, at));
        best
    }
}

} // verus!
