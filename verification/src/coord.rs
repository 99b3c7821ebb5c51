//! Coordinates: integer nanometres, points, and component orientations.

use crate::geom::limits;
use crate::names::Duplicate;
use vstd::arithmetic::div_mod::*;
use vstd::prelude::*;

verus! {

/// A length or coordinate, in nanometres.
pub type Nm = i64;

/// One millimetre.
pub const MM: Nm = 1_000_000;

/// A point on the nanometre lattice.
#[derive(Clone, Copy, Debug, PartialEq, Eq, Structural)]
pub struct Point {
    pub x: Nm,
    pub y: Nm,
}

impl View for Point {
    type V = Point;

    open spec fn view(&self) -> Point {
        *self
    }
}

impl Duplicate for Point {
    fn duplicate(&self) -> (r: Point) {
        *self
    }
}

impl Point {
    /// The point `(x, y)` given in whole millimetres.
    pub fn mm(x: i64, y: i64) -> (r: Point)
        requires
            i64::MIN <= x * MM <= i64::MAX,
            i64::MIN <= y * MM <= i64::MAX,
        ensures
            r.x == x * MM,
            r.y == y * MM,
    {
        Point { x: x * MM, y: y * MM }
    }
}

/// A component orientation: an integer quaternion, of any length but zero. A planar turn
/// and a flip to the board bottom are both rotations, so no side flag is needed.
#[derive(Clone, Copy, Debug, PartialEq, Eq, Structural)]
pub struct Orient {
    pub w: i32,
    pub x: i32,
    pub y: i32,
    pub z: i32,
}

/// The squared length of a quaternion.
pub open spec fn quat_norm(o: Orient) -> int {
    o.w * o.w + o.x * o.x + o.y * o.y + o.z * o.z
}

/// How far the local +z axis points up, times the squared length.
pub open spec fn upness(o: Orient) -> int {
    o.w * o.w - o.x * o.x - o.y * o.y + o.z * o.z
}

/// `num / den` rounded to the nearest integer, halves away from zero.
pub open spec fn rounded_div(num: int, den: int) -> int {
    if num >= 0 {
        let q = num / den;
        if 2 * (num % den) >= den {
            q + 1
        } else {
            q
        }
    } else {
        let q = (-num) / den;
        if 2 * ((-num) % den) >= den {
            -q - 1
        } else {
            -q
        }
    }
}

/// The in-plane image of `(px, py)`: the rotation matrix of the quaternion, rounded to
/// the lattice. The zero quaternion leaves the point where it is.
pub open spec fn turned(o: Orient, p: Point) -> Point {
    let n = quat_norm(o);
    if n == 0 {
        p
    } else {
        let xx = o.w * o.w + o.x * o.x - o.y * o.y - o.z * o.z;
        let xy = 2 * (o.x * o.y - o.w * o.z);
        let yx = 2 * (o.x * o.y + o.w * o.z);
        let yy = o.w * o.w - o.x * o.x + o.y * o.y - o.z * o.z;
        Point {
            x: rounded_div(xx * p.x + xy * p.y, n) as i64,
            y: rounded_div(yx * p.x + yy * p.y, n) as i64,
        }
    }
}

/// The quaternion of a cardinal turn: `k` quarter turns counter-clockwise.
pub open spec fn quarter_turn(k: int) -> Orient {
    if k == 0 {
        Orient { w: 1, x: 0, y: 0, z: 0 }
    } else if k == 1 {
        Orient { w: 1, x: 0, y: 0, z: 1 }
    } else if k == 2 {
        Orient { w: 0, x: 0, y: 0, z: 1 }
    } else {
        Orient { w: 1, x: 0, y: 0, z: -1i32 }
    }
}

/// A square is not negative.
pub proof fn square_nonneg(x: int)
    ensures
        x * x >= 0,
{
    assert(x * x >= 0) by (nonlinear_arith);
}

proof fn square_bound(x: int)
    requires
        -0x8000_0000 <= x <= 0x7fff_ffff,
    ensures
        0 <= x * x <= 0x4000_0000_0000_0000,
{
    assert(0 <= x * x <= 0x4000_0000_0000_0000) by (nonlinear_arith)
        requires
            -0x8000_0000 <= x <= 0x7fff_ffff,
    ;
}

proof fn product_within(x: int, y: int)
    requires
        -0x8000_0000 <= x <= 0x7fff_ffff,
        -0x8000_0000 <= y <= 0x7fff_ffff,
    ensures
        -0x4000_0000_0000_0000 <= x * y <= 0x4000_0000_0000_0000,
{
    assert(-0x4000_0000_0000_0000 <= x * y <= 0x4000_0000_0000_0000) by (nonlinear_arith)
        requires
            -0x8000_0000 <= x <= 0x7fff_ffff,
            -0x8000_0000 <= y <= 0x7fff_ffff,
    ;
}

/// The rotation matrix never stretches: each entry is at most the squared length.
pub proof fn entries_bounded(o: Orient)
    ensures
        ({
            let n = quat_norm(o);
            &&& 0 <= n <= 0x1_0000_0000_0000_0000
            &&& -n <= o.w * o.w + o.x * o.x - o.y * o.y - o.z * o.z <= n
            &&& -n <= 2 * (o.x * o.y - o.w * o.z) <= n
            &&& -n <= 2 * (o.x * o.y + o.w * o.z) <= n
            &&& -n <= o.w * o.w - o.x * o.x + o.y * o.y - o.z * o.z <= n
        }),
{
    let (w, x, y, z) = (o.w as int, o.x as int, o.y as int, o.z as int);
    square_bound(w);
    square_bound(x);
    square_bound(y);
    square_bound(z);
    two_products(x, y);
    two_products(w, z);
}

proof fn two_products(x: int, y: int)
    ensures
        -(x * x + y * y) <= 2 * (x * y) <= x * x + y * y,
{
    square_nonneg(x - y);
    square_nonneg(x + y);
    assert((x - y) * (x - y) == x * x - 2 * (x * y) + y * y) by (nonlinear_arith);
    assert((x + y) * (x + y) == x * x + 2 * (x * y) + y * y) by (nonlinear_arith);
}

/// A rounded quotient of `num` by `n` is at most `b` in magnitude when `|num| ≤ n·b`.
pub proof fn rounded_within(num: int, n: int, b: int)
    requires
        n > 0,
        b >= 0,
        -(n * b) <= num <= n * b,
    ensures
        -b <= rounded_div(num, n) <= b,
{
    let m = if num >= 0 {
        num
    } else {
        -num
    };
    lemma_fundamental_div_mod(m, n);
    lemma_mod_bound(m, n);
    let q = m / n;
    let r = m % n;
    assert(q <= b && (q == b ==> r == 0) && q >= 0) by (nonlinear_arith)
        requires
            m == n * q + r,
            0 <= r < n,
            0 <= m <= n * b,
            n > 0,
    ;
}

fn divide_rounded(num: i128, den: i128) -> (r: i128)
    requires
        0 < den <= 0x1_0000_0000_0000_0000,
        -0x7fff_ffff_ffff_ffff_ffff_ffff_ffff_ffff <= num,
        -den * 0x7fff_ffff_ffff_ffff <= num <= den * 0x7fff_ffff_ffff_ffff,
    ensures
        r == rounded_div(num as int, den as int),
{
    proof {
        rounded_within(num as int, den as int, 0x7fff_ffff_ffff_ffff);
    }
    if num >= 0 {
        let q: i128 = num / den;
        let rem: i128 = num % den;
        if 2 * rem >= den {
            q + 1
        } else {
            q
        }
    } else {
        let m: i128 = -num;
        let q: i128 = m / den;
        let rem: i128 = m % den;
        if 2 * rem >= den {
            -q - 1
        } else {
            -q
        }
    }
}

/// The products of a row of a turn with a point stay in range.
pub proof fn dot_bound(a: int, b: int, x: int, y: int, n: int)
    requires
        -n <= a <= n,
        -n <= b <= n,
        -0x3fff_ffff_ffff_ffff <= x <= 0x3fff_ffff_ffff_ffff,
        -0x3fff_ffff_ffff_ffff <= y <= 0x3fff_ffff_ffff_ffff,
        0 <= n <= 0x1_0000_0000_0000_0000,
    ensures
        -(n * 0x3fff_ffff_ffff_ffff) <= a * x <= n * 0x3fff_ffff_ffff_ffff,
        -(n * 0x3fff_ffff_ffff_ffff) <= b * y <= n * 0x3fff_ffff_ffff_ffff,
        n * 0x3fff_ffff_ffff_ffff <= 0x3fff_ffff_ffff_ffff_0000_0000_0000_0000,
{
    let m = 0x3fff_ffff_ffff_ffffint;
    assert(-(n * m) <= a * x <= n * m) by (nonlinear_arith)
        requires
            -n <= a <= n,
            -m <= x <= m,
    ;
    assert(-(n * m) <= b * y <= n * m) by (nonlinear_arith)
        requires
            -n <= b <= n,
            -m <= y <= m,
    ;
}

impl Orient {
    /// No turn at all.
    pub fn identity() -> (r: Orient)
        ensures
            r == quarter_turn(0),
    {
        Orient { w: 1, x: 0, y: 0, z: 0 }
    }

    /// The turn by `deg` degrees counter-clockwise, for the four cardinal angles (any
    /// number of full turns added); `None` off axis.
    pub fn from_deg(deg: i32) -> (r: Option<Orient>)
        ensures
            r == (if deg as int % 90 == 0 {
                Some(quarter_turn((deg as int % 360) / 90))
            } else {
                None
            }),
    {
        let d: i32 = deg % 360;
        let m: i32 = if d < 0 {
            d + 360
        } else {
            d
        };
        proof {
            euclid_360(deg as int, m as int);
        }
        if m == 0 {
            Some(Orient { w: 1, x: 0, y: 0, z: 0 })
        } else if m == 90 {
            Some(Orient { w: 1, x: 0, y: 0, z: 1 })
        } else if m == 180 {
            Some(Orient { w: 0, x: 0, y: 0, z: 1 })
        } else if m == 270 {
            Some(Orient { w: 1, x: 0, y: 0, z: -1 })
        } else {
            None
        }
    }

    /// Rotate a planar point: exact for the symmetries of the lattice (cardinal turns and
    /// flips), rounded to the nearest lattice point otherwise.
    pub fn apply(&self, p: Point) -> (r: Point)
        requires
            limits::pt_exact(p),
        ensures
            r == turned(*self, p),
    {
        let (w, x, y, z): (i128, i128, i128, i128) = (
            self.w as i128,
            self.x as i128,
            self.y as i128,
            self.z as i128,
        );
        proof {
            entries_bounded(*self);
            square_bound(w as int);
            square_bound(x as int);
            square_bound(y as int);
            square_bound(z as int);
            product_within(x as int, y as int);
            product_within(w as int, z as int);
        }
        let n: i128 = w * w + x * x + y * y + z * z;
        if n == 0 {
            return p;
        }
        let xx: i128 = w * w + x * x - y * y - z * z;
        let xy: i128 = 2 * (x * y - w * z);
        let yx: i128 = 2 * (x * y + w * z);
        let yy: i128 = w * w - x * x + y * y - z * z;
        let px: i128 = p.x as i128;
        let py: i128 = p.y as i128;
        proof {
            dot_bound(xx as int, xy as int, px as int, py as int, n as int);
            dot_bound(yx as int, yy as int, px as int, py as int, n as int);
            rounded_within(xx * px + xy * py, n as int, 0x7fff_ffff_ffff_fffe);
            rounded_within(yx * px + yy * py, n as int, 0x7fff_ffff_ffff_fffe);
        }
        Point {
            x: divide_rounded(xx * px + xy * py, n) as i64,
            y: divide_rounded(yx * px + yy * py, n) as i64,
        }
    }

    /// Does the local +z axis point down, so that the component is on the bottom side?
    pub fn is_bottom(&self) -> (r: bool)
        ensures
            r == (upness(*self) < 0),
    {
        proof {
            square_bound(self.w as int);
            square_bound(self.x as int);
            square_bound(self.y as int);
            square_bound(self.z as int);
        }
        let (w, x, y, z): (i128, i128, i128, i128) = (
            self.w as i128,
            self.x as i128,
            self.y as i128,
            self.z as i128,
        );
        w * w - x * x - y * y + z * z < 0
    }

    /// This orientation turned over to the other side of the board: a half turn about
    /// the board's y axis, which mirrors x and keeps y.
    pub fn flipped(&self) -> (r: Orient)
        requires
            self.x > i32::MIN,
            self.y > i32::MIN,
        ensures
            r == turned_over(*self),
    {
        Orient { w: -self.y, x: self.z, y: self.w, z: -self.x }
    }

    /// Is this a turn in the board plane by a multiple of a right angle?
    pub fn is_cardinal(&self) -> (r: bool)
        ensures
            r == cardinal(*self),
    {
        proof {
            square_bound(self.w as int);
            square_bound(self.z as int);
            square_positive(self.w as int);
            square_positive(self.z as int);
        }
        self.x == 0 && self.y == 0 && (self.w != 0 || self.z != 0) && (self.z == 0 || self.w == 0
            || self.w == self.z || self.w as i64 == -(self.z as i64))
    }

    /// The turn in whole degrees, for a planar cardinal orientation.
    pub fn to_deg(&self) -> (r: i32)
        requires
            cardinal(*self),
        ensures
            r == degrees_of(*self),
            0 <= r < 360,
            r % 90 == 0,
            turns_by(*self, r as int / 90),
    {
        if self.z == 0 {
            0
        } else if self.w == 0 {
            180
        } else if self.w == self.z {
            90
        } else {
            270
        }
    }
}

impl Default for Orient {
    fn default() -> (r: Orient)
        ensures
            r == (Orient { w: 1, x: 0, y: 0, z: 0 }),
    {
        Orient { w: 1, x: 0, y: 0, z: 0 }
    }
}

/// The orientation after a half turn about the board's y axis.
pub open spec fn turned_over(o: Orient) -> Orient {
    Orient { w: (-o.y) as i32, x: o.z, y: o.w, z: (-o.x) as i32 }
}

/// A turn in the board plane by a multiple of a right angle.
pub open spec fn cardinal(o: Orient) -> bool {
    &&& o.x == 0
    &&& o.y == 0
    &&& quat_norm(o) != 0
    &&& (o.z == 0 || o.w == 0 || o.w == o.z || o.w == -o.z)
}

/// The turn of a planar cardinal orientation, in degrees.
pub open spec fn degrees_of(o: Orient) -> int {
    if o.z == 0 {
        0
    } else if o.w == 0 {
        180
    } else if o.w == o.z {
        90
    } else {
        270
    }
}

proof fn square_positive(v: int)
    ensures
        v * v >= 0,
        v * v == 0 <==> v == 0,
{
    assert(v * v >= 0 && (v * v == 0 <==> v == 0)) by (nonlinear_arith);
}

/// The quaternion is parallel to that of `k` quarter turns, so it is the same rotation.
pub open spec fn turns_by(o: Orient, k: int) -> bool {
    &&& o.x == 0
    &&& o.y == 0
    &&& if k == 0 {
        o.z == 0
    } else if k == 1 {
        o.w == o.z
    } else if k == 2 {
        o.w == 0
    } else {
        o.w == -o.z
    }
}

proof fn euclid_360(deg: int, m: int)
    requires
        0 <= m < 360,
        (deg - m) % 360 == 0,
    ensures
        deg % 360 == m,
        (deg % 90 == 0) == (m % 90 == 0),
{
}

// ---------------------------------------------------------------------------
// Laws.
// ---------------------------------------------------------------------------

/// Quarter turns are exact: `(x, y)`, `(−y, x)`, `(−x, −y)`, `(y, −x)`.
pub proof fn quarter_turns_are_exact(p: Point)
    requires
        limits::pt_exact(p),
    ensures
        turned(quarter_turn(0), p) == p,
        turned(quarter_turn(1), p) == (Point { x: (-p.y) as i64, y: p.x }),
        turned(quarter_turn(2), p) == (Point { x: (-p.x) as i64, y: (-p.y) as i64 }),
        turned(quarter_turn(3), p) == (Point { x: p.y, y: (-p.x) as i64 }),
{
    small_turn(quarter_turn(0), p);
    small_turn(quarter_turn(1), p);
    small_turn(quarter_turn(2), p);
    small_turn(quarter_turn(3), p);
    exact_quotient(p.x as int, 1);
    exact_quotient(p.y as int, 1);
    exact_quotient(-(p.x as int), 1);
    exact_quotient(-(p.y as int), 1);
    exact_quotient(p.x as int, 2);
    exact_quotient(p.y as int, 2);
    exact_quotient(-(p.x as int), 2);
    exact_quotient(-(p.y as int), 2);
}

/// A product of two numbers out of −1, 0 and 1.
proof fn unit_product(a: int, b: int)
    requires
        -1 <= a <= 1,
        -1 <= b <= 1,
    ensures
        a * b == if a == 0 || b == 0 {
            0
        } else if a == b {
            1int
        } else {
            -1int
        },
{
    assert(a * b == if a == 0 || b == 0 {
        0
    } else if a == b {
        1int
    } else {
        -1int
    }) by (nonlinear_arith)
        requires
            -1 <= a <= 1,
            -1 <= b <= 1,
    ;
}

/// A product with a number from −2 to 2.
proof fn small_product(c: int, v: int)
    requires
        -2 <= c <= 2,
    ensures
        c == 0 ==> c * v == 0,
        c == 1 ==> c * v == v,
        c == -1 ==> c * v == -v,
        c == 2 ==> c * v == 2 * v,
        c == -2 ==> c * v == -(2 * v),
{
    assert(c == 0 ==> c * v == 0) by (nonlinear_arith);
    assert(c == 1 ==> c * v == v) by (nonlinear_arith);
    assert(c == -1 ==> c * v == -v) by (nonlinear_arith);
    assert(c == 2 ==> c * v == 2 * v) by (nonlinear_arith);
    assert(c == -2 ==> c * v == -(2 * v)) by (nonlinear_arith);
}

/// The products in `turned` for a quaternion of small entries.
proof fn small_turn(o: Orient, p: Point)
    requires
        -1 <= o.w <= 1,
        -1 <= o.x <= 1,
        -1 <= o.y <= 1,
        -1 <= o.z <= 1,
        o.w == 0 || o.y == 0,
        o.x == 0,
        o.y == 0 || o.z == 0,
    ensures
        quat_norm(o) == (if o.w != 0 {
            1int
        } else {
            0
        }) + (if o.y != 0 {
            1int
        } else {
            0
        }) + (if o.z != 0 {
            1int
        } else {
            0
        }),
        quat_norm(o) != 0 ==> ({
            let xx = o.w * o.w + o.x * o.x - o.y * o.y - o.z * o.z;
            let xy = 2 * (o.x * o.y - o.w * o.z);
            let yx = 2 * (o.x * o.y + o.w * o.z);
            let yy = o.w * o.w - o.x * o.x + o.y * o.y - o.z * o.z;
            let a = (if o.w != 0 {
                1int
            } else {
                0
            }) - (if o.y != 0 {
                1int
            } else {
                0
            }) - (if o.z != 0 {
                1int
            } else {
                0
            });
            let d = (if o.w != 0 {
                1int
            } else {
                0
            }) + (if o.y != 0 {
                1int
            } else {
                0
            }) - (if o.z != 0 {
                1int
            } else {
                0
            });
            let b = if o.w == 0 || o.z == 0 {
                0
            } else if o.w == o.z {
                2int
            } else {
                -2int
            };
            &&& xx * p.x == if a == 0 {
                0
            } else if a == 1 {
                p.x as int
            } else {
                -(p.x as int)
            }
            &&& yy * p.y == if d == 0 {
                0
            } else if d == 1 {
                p.y as int
            } else {
                -(p.y as int)
            }
            &&& xy * p.y == if b == 0 {
                0
            } else if b == 2 {
                -(2 * p.y)
            } else {
                2 * p.y
            }
            &&& yx * p.x == if b == 0 {
                0
            } else if b == 2 {
                2 * p.x
            } else {
                -(2 * p.x)
            }
        }),
{
    let (w, x, y, z) = (o.w as int, o.x as int, o.y as int, o.z as int);
    unit_product(w, w);
    unit_product(x, x);
    unit_product(y, y);
    unit_product(z, z);
    unit_product(x, y);
    unit_product(w, z);
    small_product(w * w + x * x - y * y - z * z, p.x as int);
    small_product(w * w - x * x + y * y - z * z, p.y as int);
    small_product(2 * (x * y - w * z), p.y as int);
    small_product(2 * (x * y + w * z), p.x as int);
}

/// A multiple of the divisor has its factor as rounded quotient.
pub proof fn exact_quotient(v: int, n: int)
    requires
        n > 0,
    ensures
        rounded_div(v * n, n) == v,
{
    if v >= 0 {
        lemma_fundamental_div_mod_converse(v * n, n, v, 0);
        assert(v * n >= 0) by (nonlinear_arith)
            requires
                v >= 0,
                n > 0,
        ;
    } else {
        assert(v * n < 0 && -(v * n) == (-v) * n) by (nonlinear_arith)
            requires
                v < 0,
                n > 0,
        ;
        lemma_fundamental_div_mod_converse((-v) * n, n, -v, 0);
    }
}

/// Four quarter turns bring every point back.
pub proof fn four_quarter_turns_are_none(p: Point)
    requires
        limits::pt_exact(p),
    ensures
        turned(
            quarter_turn(1),
            turned(quarter_turn(1), turned(quarter_turn(1), turned(quarter_turn(1), p))),
        ) == p,
        turned(quarter_turn(2), turned(quarter_turn(2), p)) == p,
{
    quarter_turns_are_exact(p);
    let a = turned(quarter_turn(1), p);
    quarter_turns_are_exact(a);
    let b = turned(quarter_turn(1), a);
    quarter_turns_are_exact(b);
    let c = turned(quarter_turn(1), b);
    quarter_turns_are_exact(c);
    quarter_turns_are_exact(turned(quarter_turn(2), p));
}

/// Turning over changes the side, whenever the component lies flat on either.
pub proof fn turning_over_changes_side(o: Orient)
    requires
        o.x > i32::MIN,
        o.y > i32::MIN,
    ensures
        upness(turned_over(o)) == -upness(o),
{
    let (w, x, y, z) = (o.w as int, o.x as int, o.y as int, o.z as int);
    assert((-y) * (-y) == y * y && (-x) * (-x) == x * x) by (nonlinear_arith);
}

/// Turning over mirrors x and keeps y: the board-turn convention.
pub proof fn turning_over_mirrors_x(p: Point)
    requires
        limits::pt_exact(p),
    ensures
        turned(turned_over(Orient { w: 1, x: 0, y: 0, z: 0 }), p) == (Point {
            x: (-p.x) as i64,
            y: p.y,
        }),
{
    small_turn(turned_over(Orient { w: 1, x: 0, y: 0, z: 0 }), p);
    exact_quotient(-(p.x as int), 1);
    exact_quotient(p.y as int, 1);
}

} // verus!
