//! How close flattened curves stay to the curves: what every chord leaves out.

use super::limits;
use super::path;
use super::path::{Circle, Seg, MAX_ARC_DEPTH, MAX_BEZIER_DEPTH};
use super::seg;
use crate::binary64;
use crate::coord::Point;
use vstd::prelude::*;

verus! {

/// A piece of a Bézier edge that one chord stands for: its ends, its control points, and
/// how often the edge was halved to get it.
pub struct Piece {
    pub start: Point,
    pub ctrl: Seq<Point>,
    pub end: Point,
    pub depth: nat,
}

/// The pieces of a quadratic edge.
pub open spec fn quad_pieces(p0: Point, c: Point, p2: Point, tol2: int, depth: nat) -> Seq<Piece>
    decreases MAX_BEZIER_DEPTH - depth,
{
    if depth >= MAX_BEZIER_DEPTH || seg::point_within(c, p0, p2, tol2) {
        seq![Piece { start: p0, ctrl: seq![c], end: p2, depth }]
    } else {
        let p01 = path::mid_of(p0, c);
        let p12 = path::mid_of(c, p2);
        let m = path::mid_of(p01, p12);
        quad_pieces(p0, p01, m, tol2, depth + 1) + quad_pieces(m, p12, p2, tol2, depth + 1)
    }
}

/// The pieces of a cubic edge.
pub open spec fn cubic_pieces(
    p0: Point,
    c1: Point,
    c2: Point,
    p3: Point,
    tol2: int,
    depth: nat,
) -> Seq<Piece>
    decreases MAX_BEZIER_DEPTH - depth,
{
    if depth >= MAX_BEZIER_DEPTH || (seg::point_within(c1, p0, p3, tol2) && seg::point_within(
        c2,
        p0,
        p3,
        tol2,
    )) {
        seq![Piece { start: p0, ctrl: seq![c1, c2], end: p3, depth }]
    } else {
        let p01 = path::mid_of(p0, c1);
        let p12 = path::mid_of(c1, c2);
        let p23 = path::mid_of(c2, p3);
        let p012 = path::mid_of(p01, p12);
        let p123 = path::mid_of(p12, p23);
        let m = path::mid_of(p012, p123);
        cubic_pieces(p0, p01, p012, m, tol2, depth + 1) + cubic_pieces(
            m,
            p123,
            p23,
            p3,
            tol2,
            depth + 1,
        )
    }
}

/// The pieces of a Bézier edge that starts at `from`.
pub open spec fn bezier_pieces(from: Point, s: Seg, tol: int) -> Seq<Piece> {
    let tol2 = path::used_tol(tol) * path::used_tol(tol);
    match s {
        Seg::Quadratic { ctrl, end } => quad_pieces(from, ctrl, end, tol2, 0),
        Seg::Cubic { c1, c2, end } => cubic_pieces(from, c1, c2, end, tol2, 0),
        _ => Seq::empty(),
    }
}

/// Where chord `i` of a polyline starts, whose points after `from` are `pts`.
pub open spec fn chord_start(from: Point, pts: Seq<Point>, i: int) -> Point {
    if i == 0 {
        from
    } else {
        pts[i - 1]
    }
}

/// The chords of a polyline are those of the pieces.
pub open spec fn runs_along(pieces: Seq<Piece>, from: Point, pts: Seq<Point>) -> bool {
    &&& pieces.len() == pts.len()
    &&& forall|i: int|
        0 <= i < pts.len() ==> (#[trigger] pieces[i]).end == pts[i] && pieces[i].start
            == chord_start(from, pts, i)
}

/// Every control point of the piece is nearer to its chord than `√tol2`. The curve lies
/// within the hull of the ends and the control points, so it is that near too.
pub open spec fn piece_flat(p: Piece, tol2: int) -> bool {
    forall|j: int|
        0 <= j < p.ctrl.len() ==> seg::point_within(#[trigger] p.ctrl[j], p.start, p.end, tol2)
}

/// All pieces but those halved to the limit are flat; and so are these, if `all` says so.
spec fn pieces_flat(pieces: Seq<Piece>, tol2: int, all: bool) -> bool {
    forall|i: int|
        0 <= i < pieces.len() && (all || pieces[i].depth < MAX_BEZIER_DEPTH) ==> piece_flat(
            #[trigger] pieces[i],
            tol2,
        )
}

proof fn runs_joined(
    a: Seq<Piece>,
    b: Seq<Piece>,
    from: Point,
    m: Point,
    p: Seq<Point>,
    q: Seq<Point>,
    tol2: int,
    all: bool,
)
    requires
        runs_along(a, from, p),
        runs_along(b, m, q),
        p.len() > 0,
        p.last() == m,
        pieces_flat(a, tol2, all),
        pieces_flat(b, tol2, all),
    ensures
        runs_along(a + b, from, p + q),
        pieces_flat(a + b, tol2, all),
{
    let (c, r) = (a + b, p + q);
    assert forall|i: int| 0 <= i < r.len() implies (#[trigger] c[i]).end == r[i] && c[i].start
        == chord_start(from, r, i) by {
        if i < p.len() {
            assert(c[i] == a[i]);
        } else {
            assert(c[i] == b[i - p.len()]);
        }
    }
    assert forall|i: int|
        0 <= i < c.len() && (all || c[i].depth < MAX_BEZIER_DEPTH) implies piece_flat(
        #[trigger] c[i],
        tol2,
    ) by {
        if i < a.len() {
            assert(c[i] == a[i]);
        } else {
            assert(c[i] == b[i - a.len()]);
        }
    }
}

// ---------------------------------------------------------------------------
// Halving brings the control points to the chord.
// ---------------------------------------------------------------------------

/// How far three control points in a row can be from evenly spaced after `k` halvings.
spec fn spread(k: nat) -> int
    decreases k,
{
    if k == 0 {
        5_104_000_000
    } else {
        (spread((k - 1) as nat) + 8) / 4
    }
}

proof fn spread_ends_small()
    ensures
        spread(MAX_BEZIER_DEPTH as nat) == 2,
{
    reveal_with_fuel(spread, 25);
}

/// Three points in a row are within `b` of evenly spaced, on both axes.
spec fn even(p: Point, c: Point, q: Point, b: int) -> bool {
    &&& -b <= p.x - 2 * c.x + q.x <= b
    &&& -b <= p.y - 2 * c.y + q.y <= b
}

proof fn mid_is_close(a: Point, b: Point)
    requires
        limits::pt_safe(a),
        limits::pt_safe(b),
    ensures
        limits::pt_safe(path::mid_of(a, b)),
        -1 <= 2 * path::mid_of(a, b).x - a.x - b.x <= 1,
        -1 <= 2 * path::mid_of(a, b).y - a.y - b.y <= 1,
{
}

proof fn quad_halves(p0: Point, c: Point, p2: Point, k: nat)
    requires
        limits::pt_safe(p0),
        limits::pt_safe(c),
        limits::pt_safe(p2),
        even(p0, c, p2, spread(k)),
    ensures
        ({
            let p01 = path::mid_of(p0, c);
            let p12 = path::mid_of(c, p2);
            let m = path::mid_of(p01, p12);
            &&& limits::pt_safe(p01) && limits::pt_safe(p12) && limits::pt_safe(m)
            &&& even(p0, p01, m, spread(k + 1))
            &&& even(m, p12, p2, spread(k + 1))
        }),
{
    let p01 = path::mid_of(p0, c);
    let p12 = path::mid_of(c, p2);
    mid_is_close(p0, c);
    mid_is_close(c, p2);
    mid_is_close(p01, p12);
    assert(spread(k + 1) == (spread(k) + 8) / 4);
}

proof fn cubic_halves(p0: Point, c1: Point, c2: Point, p3: Point, k: nat)
    requires
        limits::pt_safe(p0),
        limits::pt_safe(c1),
        limits::pt_safe(c2),
        limits::pt_safe(p3),
        even(p0, c1, c2, spread(k)),
        even(c1, c2, p3, spread(k)),
    ensures
        ({
            let p01 = path::mid_of(p0, c1);
            let p12 = path::mid_of(c1, c2);
            let p23 = path::mid_of(c2, p3);
            let p012 = path::mid_of(p01, p12);
            let p123 = path::mid_of(p12, p23);
            let m = path::mid_of(p012, p123);
            &&& limits::pt_safe(p01) && limits::pt_safe(p23) && limits::pt_safe(m)
            &&& limits::pt_safe(p012) && limits::pt_safe(p123)
            &&& even(p0, p01, p012, spread(k + 1))
            &&& even(p01, p012, m, spread(k + 1))
            &&& even(m, p123, p23, spread(k + 1))
            &&& even(p123, p23, p3, spread(k + 1))
        }),
{
    let p01 = path::mid_of(p0, c1);
    let p12 = path::mid_of(c1, c2);
    let p23 = path::mid_of(c2, p3);
    let p012 = path::mid_of(p01, p12);
    let p123 = path::mid_of(p12, p23);
    mid_is_close(p0, c1);
    mid_is_close(c1, c2);
    mid_is_close(c2, p3);
    mid_is_close(p01, p12);
    mid_is_close(p12, p23);
    mid_is_close(p012, p123);
    assert(spread(k + 1) == (spread(k) + 8) / 4);
}

/// A point within `b` of the point at fraction `s/d` of a segment, on both axes and scaled
/// by `d`, is near the segment.
proof fn near_a_fraction(p: Point, a: Point, b: Point, s: int, d: int, e: int, tol2: int)
    requires
        d > 0,
        0 <= s <= d,
        -e <= d * (p.x - a.x) - s * (b.x - a.x) <= e,
        -e <= d * (p.y - a.y) - s * (b.y - a.y) <= e,
        2 * (e * e) < tol2 * (d * d),
    ensures
        seg::point_within(p, a, b, tol2),
{
    seg::dist2_is_minimal(p, a, b, s, d);
    let (x, y) = (d * (p.x - a.x) - s * (b.x - a.x), d * (p.y - a.y) - s * (b.y - a.y));
    let (num, den) = seg::dist2(p, a, b);
    assert(x * x <= e * e && y * y <= e * e) by (nonlinear_arith)
        requires
            -e <= x <= e,
            -e <= y <= e,
    ;
    let n = seg::norm2(x, y);
    let dd = d * d;
    assert(n < tol2 * dd);
    assert(n * den < (tol2 * dd) * den) by (nonlinear_arith)
        requires
            n < tol2 * dd,
            den > 0,
    ;
    assert((tol2 * dd) * den == (tol2 * den) * dd) by (nonlinear_arith);
    assert(num * dd < (tol2 * den) * dd);
    assert(dd > 0) by (nonlinear_arith)
        requires
            dd == d * d,
            d > 0,
    ;
    assert(num < tol2 * den) by (nonlinear_arith)
        requires
            num * dd < (tol2 * den) * dd,
            dd > 0,
    ;
}

proof fn quad_runs(p0: Point, c: Point, p2: Point, tol2: int, depth: nat)
    requires
        limits::pt_safe(p0),
        limits::pt_safe(c),
        limits::pt_safe(p2),
        depth <= MAX_BEZIER_DEPTH,
        even(p0, c, p2, spread(depth)),
    ensures
        runs_along(
            quad_pieces(p0, c, p2, tol2, depth),
            p0,
            path::quad_points(p0, c, p2, tol2, depth),
        ),
        pieces_flat(quad_pieces(p0, c, p2, tol2, depth), tol2, tol2 >= 9),
    decreases MAX_BEZIER_DEPTH - depth,
{
    if seg::point_within(c, p0, p2, tol2) {
    } else if depth >= MAX_BEZIER_DEPTH {
        spread_ends_small();
        if tol2 >= 9 {
            near_a_fraction(c, p0, p2, 1, 2, 2, tol2);
        }
    } else {
        let p01 = path::mid_of(p0, c);
        let p12 = path::mid_of(c, p2);
        let m = path::mid_of(p01, p12);
        quad_halves(p0, c, p2, depth);
        quad_runs(p0, p01, m, tol2, depth + 1);
        quad_runs(m, p12, p2, tol2, depth + 1);
        path::quad_points_end(p0, p01, m, tol2, depth + 1);
        runs_joined(
            quad_pieces(p0, p01, m, tol2, depth + 1),
            quad_pieces(m, p12, p2, tol2, depth + 1),
            p0,
            m,
            path::quad_points(p0, p01, m, tol2, depth + 1),
            path::quad_points(m, p12, p2, tol2, depth + 1),
            tol2,
            tol2 >= 9,
        );
    }
}

proof fn cubic_runs(p0: Point, c1: Point, c2: Point, p3: Point, tol2: int, depth: nat)
    requires
        limits::pt_safe(p0),
        limits::pt_safe(c1),
        limits::pt_safe(c2),
        limits::pt_safe(p3),
        depth <= MAX_BEZIER_DEPTH,
        even(p0, c1, c2, spread(depth)),
        even(c1, c2, p3, spread(depth)),
    ensures
        runs_along(
            cubic_pieces(p0, c1, c2, p3, tol2, depth),
            p0,
            path::cubic_points(p0, c1, c2, p3, tol2, depth),
        ),
        pieces_flat(cubic_pieces(p0, c1, c2, p3, tol2, depth), tol2, tol2 >= 9),
    decreases MAX_BEZIER_DEPTH - depth,
{
    if seg::point_within(c1, p0, p3, tol2) && seg::point_within(c2, p0, p3, tol2) {
    } else if depth >= MAX_BEZIER_DEPTH {
        spread_ends_small();
        if tol2 >= 9 {
            near_a_fraction(c1, p0, p3, 1, 3, 6, tol2);
            near_a_fraction(c2, p0, p3, 2, 3, 6, tol2);
        }
    } else {
        let p01 = path::mid_of(p0, c1);
        let p12 = path::mid_of(c1, c2);
        let p23 = path::mid_of(c2, p3);
        let p012 = path::mid_of(p01, p12);
        let p123 = path::mid_of(p12, p23);
        let m = path::mid_of(p012, p123);
        cubic_halves(p0, c1, c2, p3, depth);
        cubic_runs(p0, p01, p012, m, tol2, depth + 1);
        cubic_runs(m, p123, p23, p3, tol2, depth + 1);
        path::cubic_points_end(p0, p01, p012, m, tol2, depth + 1);
        runs_joined(
            cubic_pieces(p0, p01, p012, m, tol2, depth + 1),
            cubic_pieces(m, p123, p23, p3, tol2, depth + 1),
            p0,
            m,
            path::cubic_points(p0, p01, p012, m, tol2, depth + 1),
            path::cubic_points(m, p123, p23, p3, tol2, depth + 1),
            tol2,
            tol2 >= 9,
        );
    }
}

/// Flattening a Bézier edge stays within the chord tolerance: each chord stands for a piece
/// of the edge whose control points are all nearer to the chord than the tolerance. From
/// three nanometres up that holds of every chord; below, of those that were not halved to
/// the limit.
pub proof fn bezier_chords_are_flat(from: Point, s: Seg, tol: int)
    requires
        s is Quadratic || s is Cubic,
        limits::pt_safe(from),
        limits::all_safe(path::seg_points(s)),
    ensures
        ({
            let pieces = bezier_pieces(from, s, tol);
            let t = path::used_tol(tol);
            &&& runs_along(pieces, from, path::edge_points(from, s, tol))
            &&& forall|i: int|
                0 <= i < pieces.len() && (tol >= 3 || pieces[i].depth < MAX_BEZIER_DEPTH)
                    ==> piece_flat(#[trigger] pieces[i], t * t)
        }),
{
    let t = path::used_tol(tol);
    let sp = path::seg_points(s);
    assert(limits::pt_safe(sp[0]) && limits::pt_safe(sp[1]));
    assert(spread(0) == 5_104_000_000);
    assert(tol >= 3 ==> t * t >= 9) by (nonlinear_arith)
        requires
            t >= tol,
    ;
    match s {
        Seg::Quadratic { ctrl, end } => quad_runs(from, ctrl, end, t * t, 0),
        Seg::Cubic { c1, c2, end } => {
            assert(limits::pt_safe(sp[2]));
            cubic_runs(from, c1, c2, end, t * t, 0);
        },
        _ => {},
    }
}

// ---------------------------------------------------------------------------
// Arcs.
// ---------------------------------------------------------------------------

/// A chord of a flattened arc, and how often the arc was halved to get it.
pub struct Chord {
    pub start: Point,
    pub end: Point,
    pub depth: nat,
}

/// The chords of a sub-arc.
pub open spec fn arc_chords(p: Point, q: Point, c: Circle, depth: nat) -> Seq<Chord>
    decreases MAX_ARC_DEPTH - depth,
{
    if depth >= MAX_ARC_DEPTH {
        seq![Chord { start: p, end: q, depth }]
    } else {
        match path::arc_apex(p, q, c) {
            None => seq![Chord { start: p, end: q, depth }],
            Some(m) => arc_chords(p, m, c, depth + 1) + arc_chords(m, q, c, depth + 1),
        }
    }
}

/// The chords of an arc that is no straight line.
pub open spec fn chords_of(start: Point, mid: Point, end: Point, tol: int) -> Seq<Chord> {
    let c = path::circle_of(start, mid, end, tol);
    arc_chords(start, mid, c, 0) + arc_chords(mid, end, c, 0)
}

/// The chords join the points of a polyline, and each is one where the subdivision stopped.
spec fn chords_run(chords: Seq<Chord>, from: Point, pts: Seq<Point>, c: Circle) -> bool {
    &&& chords.len() == pts.len()
    &&& forall|i: int|
        0 <= i < pts.len() ==> (#[trigger] chords[i]).end == pts[i] && chords[i].start
            == chord_start(from, pts, i) && (chords[i].depth < MAX_ARC_DEPTH ==> path::arc_apex(
            chords[i].start,
            chords[i].end,
            c,
        ) is None)
}

proof fn chords_joined(
    a: Seq<Chord>,
    b: Seq<Chord>,
    from: Point,
    m: Point,
    p: Seq<Point>,
    q: Seq<Point>,
    c: Circle,
)
    requires
        chords_run(a, from, p, c),
        chords_run(b, m, q, c),
        p.len() > 0,
        p.last() == m,
    ensures
        chords_run(a + b, from, p + q, c),
{
    let (d, r) = (a + b, p + q);
    assert forall|i: int| 0 <= i < r.len() implies (#[trigger] d[i]).end == r[i] && d[i].start
        == chord_start(from, r, i) && (d[i].depth < MAX_ARC_DEPTH ==> path::arc_apex(
        d[i].start,
        d[i].end,
        c,
    ) is None) by {
        if i < p.len() {
            assert(d[i] == a[i]);
        } else {
            assert(d[i] == b[i - p.len()]);
        }
    }
}

proof fn arc_runs(p: Point, q: Point, c: Circle, depth: nat)
    ensures
        chords_run(arc_chords(p, q, c, depth), p, path::sub_arc(p, q, c, depth), c),
    decreases MAX_ARC_DEPTH - depth,
{
    if depth < MAX_ARC_DEPTH {
        match path::arc_apex(p, q, c) {
            None => {},
            Some(m) => {
                arc_runs(p, m, c, depth + 1);
                arc_runs(m, q, c, depth + 1);
                path::sub_arc_end(p, m, c, depth + 1);
                chords_joined(
                    arc_chords(p, m, c, depth + 1),
                    arc_chords(m, q, c, depth + 1),
                    p,
                    m,
                    path::sub_arc(p, m, c, depth + 1),
                    path::sub_arc(m, q, c, depth + 1),
                    c,
                );
            },
        }
    }
}

/// The chord stands for its sub-arc: the apex of the sub-arc, the circle's point farthest
/// from the chord, is no farther from it than the tolerance, or falls on an end of the
/// chord when it is rounded to the lattice, or the chord has no length.
pub open spec fn chord_flat(p: Point, q: Point, c: Circle) -> bool {
    ||| path::chord_length(p, q).mant == 0
    ||| !binary64::below(c.tol, path::sagitta(p, q, c))
    ||| path::apex_point(p, q, c) == p
    ||| path::apex_point(p, q, c) == q
}

/// Flattening an arc stays within the chord tolerance: the chords join the points of the
/// polyline, and each that was not halved to the limit leaves out no more than the
/// tolerance.
pub proof fn arc_chords_are_flat(start: Point, mid: Point, end: Point, tol: int)
    requires
        path::circum(start, mid, end).2 != 0,
    ensures
        ({
            let pts = path::arc_points(start, mid, end, tol);
            let chords = chords_of(start, mid, end, tol);
            let c = path::circle_of(start, mid, end, tol);
            &&& c.tol == binary64::of_int(path::used_tol(tol))
            &&& chords.len() == pts.len()
            &&& forall|i: int|
                0 <= i < pts.len() ==> {
                    &&& (#[trigger] chords[i]).end == pts[i]
                    &&& chords[i].start == chord_start(start, pts, i)
                    &&& chords[i].depth < MAX_ARC_DEPTH ==> chord_flat(
                        chords[i].start,
                        chords[i].end,
                        c,
                    )
                }
        }),
{
    let c = path::circle_of(start, mid, end, tol);
    reveal(path::circle_of);
    arc_runs(start, mid, c, 0);
    arc_runs(mid, end, c, 0);
    path::sub_arc_end(start, mid, c, 0);
    chords_joined(
        arc_chords(start, mid, c, 0),
        arc_chords(mid, end, c, 0),
        start,
        mid,
        path::sub_arc(start, mid, c, 0),
        path::sub_arc(mid, end, c, 0),
        c,
    );
    let pts = path::arc_points(start, mid, end, tol);
    let chords = chords_of(start, mid, end, tol);
    assert(chords_run(chords, start, pts, c));
    reveal(path::arc_apex);
}

} // verus!
