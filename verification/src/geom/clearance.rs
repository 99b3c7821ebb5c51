//! The exact clearance test between shapes.

use super::limits;
use super::path;
use super::path::MAX_TOL;
use super::polygon;
use super::seg;
use super::seg::{segs_intersect, segs_reach, segs_within};
use super::shape;
use super::shape::{Shape2D, ShapeV};
use crate::coord::{Nm, Point};
use vstd::prelude::*;

verus! {

/// Is some vertex of `pts` in the filled area of `s`?
pub open spec fn some_inside(pts: Seq<Point>, s: ShapeV) -> bool {
    exists|i: int| 0 <= i < pts.len() && #[trigger] shape::area_has(s, pts[i])
}

/// Does some edge of `a` meet some edge of `b`?
pub open spec fn some_edges_meet(a: Seq<(Point, Point)>, b: Seq<(Point, Point)>) -> bool {
    exists|i: int, j: int|
        0 <= i < a.len() && 0 <= j < b.len() && #[trigger] seg::segments_meet(
            a[i].0,
            a[i].1,
            b[j].0,
            b[j].1,
        )
}

/// Is some edge of `a` within `√thr2` of some edge of `b`?
pub open spec fn some_edges_within(
    a: Seq<(Point, Point)>,
    b: Seq<(Point, Point)>,
    thr2: int,
) -> bool {
    exists|i: int, j: int|
        0 <= i < a.len() && 0 <= j < b.len() && #[trigger] seg::ends_within(
            a[i].0,
            a[i].1,
            b[j].0,
            b[j].1,
            thr2,
        )
}

/// Is some edge of `a` no farther than `√thr2` from some edge of `b`?
pub open spec fn some_edges_reach(
    a: Seq<(Point, Point)>,
    b: Seq<(Point, Point)>,
    thr2: int,
) -> bool {
    exists|i: int, j: int|
        0 <= i < a.len() && 0 <= j < b.len() && #[trigger] seg::ends_reach(
            a[i].0,
            a[i].1,
            b[j].0,
            b[j].1,
            thr2,
        )
}

/// Do two skeletons touch: an edge crossing, or a vertex of one in the other's area?
pub open spec fn overlap(a: ShapeV, b: ShapeV) -> bool {
    ||| some_inside(shape::skeleton(a), b)
    ||| some_inside(shape::skeleton(b), a)
    ||| some_edges_meet(shape::edges(a), shape::edges(b))
}

/// Is the edge-to-edge gap below `clr`? Overlapping skeletons have none; otherwise the
/// skeleton distance is below `clr + radius(a) + radius(b)`.
pub open spec fn closer(a: ShapeV, b: ShapeV, clr: int) -> bool {
    let thr = clr + shape::radius_of(a) + shape::radius_of(b);
    overlap(a, b) || (thr > 0 && some_edges_within(shape::edges(a), shape::edges(b), thr * thr))
}

/// Do two shapes overlap or touch: is the skeleton distance at most
/// `radius(a) + radius(b)`?
pub open spec fn touching(a: ShapeV, b: ShapeV) -> bool {
    let r = shape::radius_of(a) + shape::radius_of(b);
    overlap(a, b) || (r >= 0 && some_edges_reach(shape::edges(a), shape::edges(b), r * r))
}

/// Is the edge-to-edge gap a violation of `min_clr`? Shapes that overlap or touch violate
/// every rule from zero up; others violate when the gap is below `min_clr`.
pub open spec fn violates(a: ShapeV, b: ShapeV, min_clr: int) -> bool {
    closer(a, b, min_clr) || (min_clr >= 0 && touching(a, b))
}

/// Shapes that overlap or touch violate every rule, and a rule of zero is violated by
/// them alone.
pub proof fn touching_always_violates(a: ShapeV, b: ShapeV, min_clr: int)
    requires
        min_clr >= 0,
    ensures
        touching(a, b) ==> violates(a, b, min_clr),
        violates(a, b, 0) == touching(a, b),
{
    let (ea, eb) = (shape::edges(a), shape::edges(b));
    let r = shape::radius_of(a) + shape::radius_of(b);
    if r > 0 && some_edges_within(ea, eb, r * r) {
        let (i, j) = choose|i: int, j: int|
            0 <= i < ea.len() && 0 <= j < eb.len() && #[trigger] seg::ends_within(
                ea[i].0,
                ea[i].1,
                eb[j].0,
                eb[j].1,
                r * r,
            );
        assert(seg::ends_reach(ea[i].0, ea[i].1, eb[j].0, eb[j].1, r * r));
    }
}

/// Touching shapes are closer than every positive clearance.
pub proof fn touching_is_closer(a: ShapeV, b: ShapeV, clr: int)
    requires
        clr > 0,
        touching(a, b),
    ensures
        closer(a, b, clr),
{
    let (ea, eb) = (shape::edges(a), shape::edges(b));
    let r = shape::radius_of(a) + shape::radius_of(b);
    let t = clr + r;
    if !overlap(a, b) {
        let (i, j) = choose|i: int, j: int|
            0 <= i < ea.len() && 0 <= j < eb.len() && #[trigger] seg::ends_reach(
                ea[i].0,
                ea[i].1,
                eb[j].0,
                eb[j].1,
                r * r,
            );
        let (a1, a2, b1, b2) = (ea[i].0, ea[i].1, eb[j].0, eb[j].1);
        assert(r * r < t * t) by (nonlinear_arith)
            requires
                0 <= r < t,
        ;
        reach_is_within(a1, b1, b2, r * r, t * t);
        reach_is_within(a2, b1, b2, r * r, t * t);
        reach_is_within(b1, a1, a2, r * r, t * t);
        reach_is_within(b2, a1, a2, r * r, t * t);
        assert(seg::ends_within(a1, a2, b1, b2, t * t));
    }
}

proof fn reach_is_within(p: Point, a: Point, b: Point, t: int, u: int)
    requires
        t < u,
    ensures
        seg::point_reaches(p, a, b, t) ==> seg::point_within(p, a, b, u),
{
    seg::dist2_is_minimal(p, a, b, 0, 1);
    let den = seg::dist2(p, a, b).1;
    assert(t * den < u * den) by (nonlinear_arith)
        requires
            t < u,
            den > 0,
    ;
}

/// Clearance does not depend on which shape is named first.
pub proof fn violates_symmetric(a: ShapeV, b: ShapeV, min_clr: int)
    ensures
        violates(a, b, min_clr) == violates(b, a, min_clr),
{
    one_sided(a, b, min_clr);
    one_sided(b, a, min_clr);
}

proof fn one_sided(a: ShapeV, b: ShapeV, min_clr: int)
    ensures
        violates(a, b, min_clr) ==> violates(b, a, min_clr),
{
    let (ea, eb) = (shape::edges(a), shape::edges(b));
    if some_edges_meet(ea, eb) {
        let (i, j) = choose|i: int, j: int|
            0 <= i < ea.len() && 0 <= j < eb.len() && #[trigger] seg::segments_meet(
                ea[i].0,
                ea[i].1,
                eb[j].0,
                eb[j].1,
            );
        seg::segments_meet_symmetric(ea[i].0, ea[i].1, eb[j].0, eb[j].1);
        assert(some_edges_meet(eb, ea));
    }
    let thr = min_clr + shape::radius_of(a) + shape::radius_of(b);
    if some_edges_within(ea, eb, thr * thr) {
        let (i, j) = choose|i: int, j: int|
            0 <= i < ea.len() && 0 <= j < eb.len() && #[trigger] seg::ends_within(
                ea[i].0,
                ea[i].1,
                eb[j].0,
                eb[j].1,
                thr * thr,
            );
        seg::ends_within_symmetric(ea[i].0, ea[i].1, eb[j].0, eb[j].1, thr * thr);
        assert(some_edges_within(eb, ea, thr * thr));
    }
    let r = shape::radius_of(a) + shape::radius_of(b);
    if some_edges_reach(ea, eb, r * r) {
        let (i, j) = choose|i: int, j: int|
            0 <= i < ea.len() && 0 <= j < eb.len() && #[trigger] seg::ends_reach(
                ea[i].0,
                ea[i].1,
                eb[j].0,
                eb[j].1,
                r * r,
            );
        seg::ends_within_symmetric(ea[i].0, ea[i].1, eb[j].0, eb[j].1, r * r);
        assert(some_edges_reach(eb, ea, r * r));
    }
}

/// A larger rule only finds more violations.
pub proof fn violates_monotone(a: ShapeV, b: ShapeV, small: int, large: int)
    requires
        small <= large,
        violates(a, b, small),
    ensures
        violates(a, b, large),
{
    if closer(a, b, small) {
        closer_monotone(a, b, small, large);
    }
}

/// What is closer than a small clearance is closer than every larger one.
pub proof fn closer_monotone(a: ShapeV, b: ShapeV, small: int, large: int)
    requires
        small <= large,
        closer(a, b, small),
    ensures
        closer(a, b, large),
{
    let (ea, eb) = (shape::edges(a), shape::edges(b));
    let t = small + shape::radius_of(a) + shape::radius_of(b);
    let u = large + shape::radius_of(a) + shape::radius_of(b);
    if !overlap(a, b) {
        let (i, j) = choose|i: int, j: int|
            0 <= i < ea.len() && 0 <= j < eb.len() && #[trigger] seg::ends_within(
                ea[i].0,
                ea[i].1,
                eb[j].0,
                eb[j].1,
                t * t,
            );
        let (a1, a2, b1, b2) = (ea[i].0, ea[i].1, eb[j].0, eb[j].1);
        assert(t * t <= u * u) by (nonlinear_arith)
            requires
                0 < t <= u,
        ;
        within_monotone(a1, b1, b2, t * t, u * u);
        within_monotone(a2, b1, b2, t * t, u * u);
        within_monotone(b1, a1, a2, t * t, u * u);
        within_monotone(b2, a1, a2, t * t, u * u);
        assert(seg::ends_within(a1, a2, b1, b2, u * u));
    }
}

proof fn within_monotone(p: Point, a: Point, b: Point, t: int, u: int)
    requires
        t <= u,
    ensures
        seg::point_within(p, a, b, t) ==> seg::point_within(p, a, b, u),
{
    seg::dist2_is_minimal(p, a, b, 0, 1);
    let den = seg::dist2(p, a, b).1;
    assert(t * den <= u * den) by (nonlinear_arith)
        requires
            t <= u,
            den > 0,
    ;
}

/// Every edge end of a measurable shape is kernel-safe.
pub proof fn edges_are_safe(s: ShapeV)
    requires
        shape::measurable(s),
    ensures
        forall|i: int|
            #![trigger shape::edges(s)[i]]
            0 <= i < shape::edges(s).len() ==> limits::pt_safe(shape::edges(s)[i].0)
                && limits::pt_safe(shape::edges(s)[i].1),
{
    let pts = shape::skeleton(s);
    match s {
        ShapeV::Stroke { path, .. } => {
            path::flat_keeps_ends(path, limits::DEFAULT_CHORD_TOL as int);
            assert forall|i: int| 0 <= i < pts.len() implies limits::pt_safe(#[trigger] pts[i]) by {}
            assert(limits::pt_safe(pts[0]));
        },
        ShapeV::Polygon { path, .. } => {
            assert forall|i: int| 0 <= i < pts.len() implies limits::pt_safe(#[trigger] pts[i]) by {}
        },
        ShapeV::Area { rings } => {
            ring_edges_safe(rings, rings.len());
        },
    }
}

proof fn ring_edges_safe(rings: Seq<Seq<Point>>, k: nat)
    requires
        k <= rings.len(),
        polygon::rings_safe(rings),
    ensures
        forall|i: int|
            #![trigger shape::ring_edges(rings, k)[i]]
            0 <= i < shape::ring_edges(rings, k).len() ==> limits::pt_safe(
                shape::ring_edges(rings, k)[i].0,
            ) && limits::pt_safe(shape::ring_edges(rings, k)[i].1),
    decreases k,
{
    if k > 0 {
        ring_edges_safe(rings, (k - 1) as nat);
        let ring = rings[k - 1];
        assert(limits::all_safe(ring));
        let prev = shape::ring_edges(rings, (k - 1) as nat);
        let all = shape::ring_edges(rings, k);
        assert forall|i: int| 0 <= i < all.len() implies limits::pt_safe((#[trigger] all[i]).0)
            && limits::pt_safe(all[i].1) by {
            if i < prev.len() {
                assert(all[i] == prev[i]);
            } else {
                let j = i - prev.len();
                assert(all[i] == shape::closed_edges(ring)[j]);
                assert(limits::pt_safe(ring[j]));
                assert(limits::pt_safe(ring[polygon::next(j, ring.len() as int)]));
            }
        }
    }
}

fn any_inside(pts: &Vec<Point>, s: &Shape2D) -> (r: bool)
    requires
        limits::all_safe(pts@),
        shape::measurable(s@),
    ensures
        r == some_inside(pts@, s@),
{
    let mut i: usize = 0;
    while i < pts.len()
        invariant
            i <= pts.len(),
            limits::all_safe(pts@),
            shape::measurable(s@),
            forall|j: int| 0 <= j < i ==> !#[trigger] shape::area_has(s@, pts@[j]),
        decreases pts.len() - i,
    {
        proof {
            assert(limits::pt_safe(pts@[i as int]));
            let sk = shape::skeleton(s@);
            assert forall|k: int| 0 <= k < sk.len() implies limits::pt_exact(#[trigger] sk[k]) by {
                assert(limits::pt_safe(sk[k]));
            }
        }
        if s.area_contains(pts[i]) {
            assert(shape::area_has(s@, pts@[i as int]));
            return true;
        }
        i += 1;
    }
    false
}

/// Do two skeletons touch?
pub fn skeletons_overlap(a: &Shape2D, b: &Shape2D) -> (r: bool)
    requires
        shape::measurable(a@),
        shape::measurable(b@),
    ensures
        r == overlap(a@, b@),
{
    let pa = a.skeleton_points();
    let pb = b.skeleton_points();
    if any_inside(&pa, b) || any_inside(&pb, a) {
        return true;
    }
    let ea = a.segments();
    let eb = b.segments();
    proof {
        edges_are_safe(a@);
        edges_are_safe(b@);
    }
    let mut i: usize = 0;
    while i < ea.len()
        invariant
            i <= ea.len(),
            ea@ == shape::edges(a@),
            eb@ == shape::edges(b@),
            forall|k: int|
                #![trigger shape::edges(a@)[k]]
                0 <= k < ea.len() ==> limits::pt_safe(shape::edges(a@)[k].0) && limits::pt_safe(
                    shape::edges(a@)[k].1,
                ),
            forall|k: int|
                #![trigger shape::edges(b@)[k]]
                0 <= k < eb.len() ==> limits::pt_safe(shape::edges(b@)[k].0) && limits::pt_safe(
                    shape::edges(b@)[k].1,
                ),
            !some_inside(shape::skeleton(a@), b@),
            !some_inside(shape::skeleton(b@), a@),
            forall|k: int, l: int|
                0 <= k < i && 0 <= l < eb.len() ==> !#[trigger] seg::segments_meet(
                    ea@[k].0,
                    ea@[k].1,
                    eb@[l].0,
                    eb@[l].1,
                ),
        decreases ea.len() - i,
    {
        let (a1, a2) = ea[i];
        assert(shape::edges(a@)[i as int] == (a1, a2));
        let mut j: usize = 0;
        while j < eb.len()
            invariant
                i < ea.len(),
                j <= eb.len(),
                ea@ == shape::edges(a@),
                eb@ == shape::edges(b@),
                ea@[i as int] == (a1, a2),
                limits::pt_safe(a1),
                limits::pt_safe(a2),
                forall|k: int|
                    #![trigger shape::edges(b@)[k]]
                    0 <= k < eb.len() ==> limits::pt_safe(shape::edges(b@)[k].0)
                        && limits::pt_safe(shape::edges(b@)[k].1),
                forall|l: int|
                    0 <= l < j ==> !#[trigger] seg::segments_meet(a1, a2, eb@[l].0, eb@[l].1),
            decreases eb.len() - j,
        {
            let (b1, b2) = eb[j];
            assert(shape::edges(b@)[j as int] == (b1, b2));
            if segs_intersect(a1, a2, b1, b2) {
                assert(seg::segments_meet(
                    ea@[i as int].0,
                    ea@[i as int].1,
                    eb@[j as int].0,
                    eb@[j as int].1,
                ));
                return true;
            }
            j += 1;
        }
        i += 1;
    }
    false
}

/// Is the edge-to-edge gap `skeleton distance − radius(a) − radius(b)` strictly below
/// `clr`?
pub fn closer_than(a: &Shape2D, b: &Shape2D, clr: Nm) -> (r: bool)
    requires
        shape::measurable(a@),
        shape::measurable(b@),
        limits::in_kernel(clr as int),
        clr + shape::radius_of(a@) + shape::radius_of(b@) <= MAX_TOL,
    ensures
        r == closer(a@, b@, clr as int),
{
    if skeletons_overlap(a, b) {
        return true;
    }
    let thr: Nm = clr + a.radius() + b.radius();
    if thr <= 0 {
        return false;
    }
    proof {
        assert(0 <= thr * thr <= 13_024_881_000_000_000_000) by (nonlinear_arith)
            requires
                0 < thr <= 3_609_000_000,
        ;
        assert(8 * limits::KERNEL_SAFE_COORD * limits::KERNEL_SAFE_COORD
            == 13_025_408_000_000_000_000) by (nonlinear_arith)
            requires
                limits::KERNEL_SAFE_COORD == 1_276_000_000,
        ;
        edges_are_safe(a@);
        edges_are_safe(b@);
    }
    let thr2: i128 = (thr as i128) * (thr as i128);
    let ea = a.segments();
    let eb = b.segments();
    let mut i: usize = 0;
    while i < ea.len()
        invariant
            i <= ea.len(),
            ea@ == shape::edges(a@),
            eb@ == shape::edges(b@),
            thr2 == thr * thr,
            thr > 0,
            thr == clr + shape::radius_of(a@) + shape::radius_of(b@),
            0 <= thr2 <= 8 * limits::KERNEL_SAFE_COORD * limits::KERNEL_SAFE_COORD,
            forall|k: int|
                #![trigger shape::edges(a@)[k]]
                0 <= k < ea.len() ==> limits::pt_safe(shape::edges(a@)[k].0) && limits::pt_safe(
                    shape::edges(a@)[k].1,
                ),
            forall|k: int|
                #![trigger shape::edges(b@)[k]]
                0 <= k < eb.len() ==> limits::pt_safe(shape::edges(b@)[k].0) && limits::pt_safe(
                    shape::edges(b@)[k].1,
                ),
            forall|k: int, l: int|
                0 <= k < i && 0 <= l < eb.len() ==> !#[trigger] seg::ends_within(
                    ea@[k].0,
                    ea@[k].1,
                    eb@[l].0,
                    eb@[l].1,
                    thr * thr,
                ),
        decreases ea.len() - i,
    {
        let (a1, a2) = ea[i];
        assert(shape::edges(a@)[i as int] == (a1, a2));
        let mut j: usize = 0;
        while j < eb.len()
            invariant
                i < ea.len(),
                j <= eb.len(),
                ea@ == shape::edges(a@),
                eb@ == shape::edges(b@),
                ea@[i as int] == (a1, a2),
                thr2 == thr * thr,
                thr > 0,
                thr == clr + shape::radius_of(a@) + shape::radius_of(b@),
                0 <= thr2 <= 8 * limits::KERNEL_SAFE_COORD * limits::KERNEL_SAFE_COORD,
                limits::pt_safe(a1),
                limits::pt_safe(a2),
                forall|k: int|
                    #![trigger shape::edges(b@)[k]]
                    0 <= k < eb.len() ==> limits::pt_safe(shape::edges(b@)[k].0)
                        && limits::pt_safe(shape::edges(b@)[k].1),
                forall|l: int|
                    0 <= l < j ==> !#[trigger] seg::ends_within(
                        a1,
                        a2,
                        eb@[l].0,
                        eb@[l].1,
                        thr * thr,
                    ),
            decreases eb.len() - j,
        {
            let (b1, b2) = eb[j];
            assert(shape::edges(b@)[j as int] == (b1, b2));
            if segs_within(a1, a2, b1, b2, thr2) {
                assert(seg::ends_within(
                    ea@[i as int].0,
                    ea@[i as int].1,
                    eb@[j as int].0,
                    eb@[j as int].1,
                    thr * thr,
                ));
                return true;
            }
            j += 1;
        }
        i += 1;
    }
    false
}

/// Do two shapes overlap or touch?
pub fn regions_touch(a: &Shape2D, b: &Shape2D) -> (r: bool)
    requires
        shape::measurable(a@),
        shape::measurable(b@),
        shape::radius_of(a@) + shape::radius_of(b@) <= MAX_TOL,
    ensures
        r == touching(a@, b@),
{
    if skeletons_overlap(a, b) {
        return true;
    }
    let thr: Nm = a.radius() + b.radius();
    if thr < 0 {
        return false;
    }
    proof {
        assert(0 <= thr * thr <= 13_024_881_000_000_000_000) by (nonlinear_arith)
            requires
                0 <= thr <= 3_609_000_000,
        ;
        assert(8 * limits::KERNEL_SAFE_COORD * limits::KERNEL_SAFE_COORD
            == 13_025_408_000_000_000_000) by (nonlinear_arith)
            requires
                limits::KERNEL_SAFE_COORD == 1_276_000_000,
        ;
        edges_are_safe(a@);
        edges_are_safe(b@);
    }
    let thr2: i128 = (thr as i128) * (thr as i128);
    let ea = a.segments();
    let eb = b.segments();
    let mut i: usize = 0;
    while i < ea.len()
        invariant
            i <= ea.len(),
            ea@ == shape::edges(a@),
            eb@ == shape::edges(b@),
            thr2 == thr * thr,
            thr >= 0,
            thr == shape::radius_of(a@) + shape::radius_of(b@),
            0 <= thr2 <= 8 * limits::KERNEL_SAFE_COORD * limits::KERNEL_SAFE_COORD,
            forall|k: int|
                #![trigger shape::edges(a@)[k]]
                0 <= k < ea.len() ==> limits::pt_safe(shape::edges(a@)[k].0) && limits::pt_safe(
                    shape::edges(a@)[k].1,
                ),
            forall|k: int|
                #![trigger shape::edges(b@)[k]]
                0 <= k < eb.len() ==> limits::pt_safe(shape::edges(b@)[k].0) && limits::pt_safe(
                    shape::edges(b@)[k].1,
                ),
            forall|k: int, l: int|
                0 <= k < i && 0 <= l < eb.len() ==> !#[trigger] seg::ends_reach(
                    ea@[k].0,
                    ea@[k].1,
                    eb@[l].0,
                    eb@[l].1,
                    thr * thr,
                ),
        decreases ea.len() - i,
    {
        let (a1, a2) = ea[i];
        assert(shape::edges(a@)[i as int] == (a1, a2));
        let mut j: usize = 0;
        while j < eb.len()
            invariant
                i < ea.len(),
                j <= eb.len(),
                ea@ == shape::edges(a@),
                eb@ == shape::edges(b@),
                ea@[i as int] == (a1, a2),
                thr2 == thr * thr,
                thr >= 0,
                thr == shape::radius_of(a@) + shape::radius_of(b@),
                0 <= thr2 <= 8 * limits::KERNEL_SAFE_COORD * limits::KERNEL_SAFE_COORD,
                limits::pt_safe(a1),
                limits::pt_safe(a2),
                forall|k: int|
                    #![trigger shape::edges(b@)[k]]
                    0 <= k < eb.len() ==> limits::pt_safe(shape::edges(b@)[k].0)
                        && limits::pt_safe(shape::edges(b@)[k].1),
                forall|l: int|
                    0 <= l < j ==> !#[trigger] seg::ends_reach(
                        a1,
                        a2,
                        eb@[l].0,
                        eb@[l].1,
                        thr * thr,
                    ),
            decreases eb.len() - j,
        {
            let (b1, b2) = eb[j];
            assert(shape::edges(b@)[j as int] == (b1, b2));
            if segs_reach(a1, a2, b1, b2, thr2) {
                assert(seg::ends_reach(
                    ea@[i as int].0,
                    ea@[i as int].1,
                    eb@[j as int].0,
                    eb@[j as int].1,
                    thr * thr,
                ));
                return true;
            }
            j += 1;
        }
        i += 1;
    }
    false
}

/// Is the edge-to-edge gap between two shapes a clearance violation?
///   - Overlapping or touching shapes violate every rule from zero up.
///   - Disjoint shapes violate when the gap `skeleton distance − radius(a) − radius(b)`
///     is strictly below `min_clr`.
pub fn clearance_violated(a: &Shape2D, b: &Shape2D, min_clr: Nm) -> (r: bool)
    requires
        shape::measurable(a@),
        shape::measurable(b@),
        limits::in_kernel(min_clr as int),
        min_clr + shape::radius_of(a@) + shape::radius_of(b@) <= MAX_TOL,
    ensures
        r == violates(a@, b@, min_clr as int),
{
    proof {
        if min_clr > 0 && touching(a@, b@) {
            touching_is_closer(a@, b@, min_clr as int);
        }
    }
    closer_than(a, b, min_clr) || (min_clr == 0 && regions_touch(a, b))
}

} // verus!
