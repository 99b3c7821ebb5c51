//! Angles and ratios as the importers read them. A file spells them as decimal fractions;
//! what each spelling means to the importers is handed in as a table, so that the
//! geometry that follows is exact integer work and correctly rounded binary64 steps.

use crate::binary64;
use crate::binary64::Real;
use crate::coord::{Nm, Orient, Point};
use crate::geom::path;
use crate::geom::path::length_of;
use crate::text::str_eq;
use vstd::prelude::*;

verus! {

/// A rotation about a point.
#[derive(Clone, Copy, Debug, PartialEq, Eq, Structural)]
pub enum Turn {
    Still,
    Quarter,
    Half,
    ThreeQuarter,
    /// Any other angle, by its sine and cosine.
    Other { sin: Real, cos: Real },
    /// An angle that is no number: every point lands on the centre.
    Lost,
}

/// A factor.
#[derive(Clone, Copy, Debug, PartialEq, Eq, Structural)]
pub enum Ratio {
    Finite(Real),
    Infinite { neg: bool },
    NotANumber,
}

/// What one spelled number means.
#[derive(Clone, Copy, Debug, PartialEq, Eq, Structural)]
pub struct Num {
    /// The number as a factor.
    pub ratio: Ratio,
    /// The number of degrees as a rotation.
    pub turn: Turn,
    /// Half of it as a rotation.
    pub half_turn: Turn,
    /// The angle about the z axis as an orientation.
    pub orient: Orient,
}

/// A spelling and its meaning.
#[derive(Debug, PartialEq, Eq)]
pub struct Reading {
    pub text: String,
    pub num: Num,
}

/// The numbers of a file. A spelling that is not listed is no number.
#[derive(Debug, PartialEq, Eq)]
pub struct Readings {
    pub list: Vec<Reading>,
}

impl Turn {
    /// Its sine and cosine are proper binary64 values.
    pub open spec fn ok(self) -> bool {
        match self {
            Turn::Other { sin, cos } => sin.ok() && cos.ok(),
            _ => true,
        }
    }
}

impl Num {
    /// Its parts are proper binary64 values.
    pub open spec fn ok(self) -> bool {
        &&& self.turn.ok()
        &&& self.half_turn.ok()
        &&& match self.ratio {
            Ratio::Finite(x) => x.ok(),
            _ => true,
        }
    }
}

/// Readings as values.
pub open spec fn reading_views(v: Seq<Reading>) -> Seq<(Seq<char>, Num)> {
    Seq::new(v.len(), |i: int| (v[i].text@, v[i].num))
}

impl View for Readings {
    type V = Seq<(Seq<char>, Num)>;

    open spec fn view(&self) -> Seq<(Seq<char>, Num)> {
        reading_views(self.list@)
    }
}

/// Every reading is proper.
pub open spec fn readable(rs: Seq<(Seq<char>, Num)>) -> bool {
    forall|i: int| 0 <= i < rs.len() ==> (#[trigger] rs[i]).1.ok()
}

/// What a spelling means: the first reading of it.
pub open spec fn meaning(rs: Seq<(Seq<char>, Num)>, s: Seq<char>) -> Option<Num>
    decreases rs.len(),
{
    if rs.len() == 0 {
        None
    } else if rs[0].0 == s {
        Some(rs[0].1)
    } else {
        meaning(rs.skip(1), s)
    }
}

/// The meaning of a spelling, where there is one.
pub open spec fn opt_meaning(rs: Seq<(Seq<char>, Num)>, s: Option<Seq<char>>) -> Option<Num> {
    match s {
        Some(s) => meaning(rs, s),
        None => None,
    }
}

impl Readings {
    /// What a spelling means; `None` when it is no number.
    pub fn find(&self, s: &str) -> (r: Option<Num>)
        requires
            readable(self@),
        ensures
            r == meaning(self@, s@),
            r is Some ==> r->0.ok(),
    {
        let ghost v = self@;
        let mut i: usize = 0;
        assert(v.skip(0) =~= v);
        while i < self.list.len()
            invariant
                i <= self.list.len(),
                v == self@,
                readable(v),
                meaning(v, s@) == meaning(v.skip(i as int), s@),
            decreases self.list.len() - i,
        {
            proof {
                assert(v.skip(i as int)[0] == v[i as int]);
                assert(v.skip(i as int).skip(1) =~= v.skip(i + 1));
            }
            if str_eq(self.list[i].text.as_str(), s) {
                assert(v[i as int].1.ok());
                return Some(self.list[i].num);
            }
            i += 1;
        }
        None
    }
}

// ---------------------------------------------------------------------------
// Rounded geometry.
// ---------------------------------------------------------------------------

/// A number held within 64 bits.
pub open spec fn held(n: int) -> i64 {
    if n > i64::MAX {
        i64::MAX
    } else if n < i64::MIN {
        i64::MIN
    } else {
        n as i64
    }
}

/// A point moved, held within 64 bits.
pub open spec fn shifted(p: Point, dx: int, dy: int) -> Point {
    Point { x: held(p.x + dx), y: held(p.y + dy) }
}

/// `p` turned about `c`: exactly for the quarter turns, else with the sine and cosine in
/// binary64, rounded to whole nanometres.
pub open spec fn rotated(p: Point, c: Point, t: Turn) -> Point {
    let dx = p.x - c.x;
    let dy = p.y - c.y;
    match t {
        Turn::Still => p,
        Turn::Quarter => shifted(c, -dy, dx),
        Turn::Half => shifted(c, -dx, -dy),
        Turn::ThreeQuarter => shifted(c, dy, -dx),
        Turn::Other { sin, cos } => {
            let fx = binary64::of_int(dx);
            let fy = binary64::of_int(dy);
            shifted(
                c,
                binary64::nearest(
                    binary64::difference(
                        binary64::product(fx, cos),
                        binary64::product(fy, sin),
                    ),
                ),
                binary64::nearest(
                    binary64::sum(binary64::product(fx, sin), binary64::product(fy, cos)),
                ),
            )
        },
        Turn::Lost => c,
    }
}

/// Four quarter turns about a point give every point within range back, and two half
/// turns do.
pub proof fn quarter_rotations_close(p: Point, c: Point)
    requires
        -0x1fff_ffff_ffff_ffff <= p.x <= 0x1fff_ffff_ffff_ffff,
        -0x1fff_ffff_ffff_ffff <= p.y <= 0x1fff_ffff_ffff_ffff,
        -0x0fff_ffff_ffff_ffff <= c.x <= 0x0fff_ffff_ffff_ffff,
        -0x0fff_ffff_ffff_ffff <= c.y <= 0x0fff_ffff_ffff_ffff,
    ensures
        rotated(rotated(p, c, Turn::Quarter), c, Turn::ThreeQuarter) == p,
        rotated(rotated(p, c, Turn::Quarter), c, Turn::Quarter) == rotated(p, c, Turn::Half),
        rotated(rotated(p, c, Turn::Half), c, Turn::Half) == p,
{
}

/// The distance of two points in binary64, rounded to whole nanometres.
pub open spec fn distance(a: Point, b: Point) -> int {
    binary64::nearest(
        binary64::root(
            path::sum_squares(binary64::of_int(a.x - b.x), binary64::of_int(a.y - b.y)),
        ),
    )
}

/// A length times a factor in binary64, rounded to whole nanometres.
pub open spec fn scaled(m: int, r: Ratio) -> int {
    match r {
        Ratio::Finite(x) => binary64::nearest(binary64::product(binary64::of_int(m), x)),
        Ratio::Infinite { neg } => if m == 0 {
            0
        } else if (m < 0) != neg {
            i64::MIN as int
        } else {
            i64::MAX as int
        },
        Ratio::NotANumber => 0,
    }
}

fn hold(n: i128) -> (r: i64)
    ensures
        r == held(n as int),
{
    if n > 0x7fff_ffff_ffff_ffff {
        i64::MAX
    } else if n < -0x8000_0000_0000_0000 {
        i64::MIN
    } else {
        n as i64
    }
}

/// Move a point, held within 64 bits.
pub fn shift(p: Point, dx: i128, dy: i128) -> (r: Point)
    requires
        -0x1_0000_0000_0000_0000 <= dx <= 0x1_0000_0000_0000_0000,
        -0x1_0000_0000_0000_0000 <= dy <= 0x1_0000_0000_0000_0000,
    ensures
        r == shifted(p, dx as int, dy as int),
{
    Point { x: hold(p.x as i128 + dx), y: hold(p.y as i128 + dy) }
}

/// Turn a point about another.
pub fn rotate_point(p: Point, c: Point, t: Turn) -> (r: Point)
    requires
        t.ok(),
    ensures
        r == rotated(p, c, t),
{
    let dx: i128 = p.x as i128 - c.x as i128;
    let dy: i128 = p.y as i128 - c.y as i128;
    match t {
        Turn::Still => p,
        Turn::Quarter => shift(c, -dy, dx),
        Turn::Half => shift(c, -dx, -dy),
        Turn::ThreeQuarter => shift(c, dy, -dx),
        Turn::Other { sin, cos } => {
            let fx = Real::from_int(dx);
            let fy = Real::from_int(dy);
            let rx: i64 = fx.times(cos).less(fy.times(sin)).round();
            let ry: i64 = fx.times(sin).plus(fy.times(cos)).round();
            shift(c, rx as i128, ry as i128)
        },
        Turn::Lost => c,
    }
}

/// The distance of two points, rounded to whole nanometres.
pub fn dist_nm(a: Point, b: Point) -> (r: Nm)
    ensures
        r == distance(a, b),
{
    let fx = Real::from_int(a.x as i128 - b.x as i128);
    let fy = Real::from_int(a.y as i128 - b.y as i128);
    length_of(fx, fy).round()
}

/// A length times a factor, rounded to whole nanometres.
pub fn scale_nm(m: Nm, r: Ratio) -> (v: Nm)
    requires
        r matches Ratio::Finite(x) ==> x.ok(),
    ensures
        v == scaled(m as int, r),
{
    match r {
        Ratio::Finite(x) => Real::from_int(m as i128).times(x).round(),
        Ratio::Infinite { neg } => if m == 0 {
            0
        } else if (m < 0) != neg {
            i64::MIN
        } else {
            i64::MAX
        },
        Ratio::NotANumber => 0,
    }
}

} // verus!
