//! Binary floating-point arithmetic on integers.
//!
//! A [`Real`] is a number `±mant · 2^exp` with a 53-bit mantissa, and every operation
//! returns the exact result rounded to the nearest such number, ties to even: the
//! arithmetic of IEEE 754 `binary64` over a wider exponent range. Curve tessellation
//! and the rounding of imported geometry run on it, so their results are the same on
//! every machine and can be reasoned about.

use vstd::arithmetic::div_mod::*;
use vstd::arithmetic::mul::*;
use vstd::arithmetic::power2::*;
use vstd::prelude::*;

verus! {

/// The smallest normalised mantissa, `2^52`.
pub const MANT_MIN: u64 = 0x10_0000_0000_0000;

/// One past the largest mantissa, `2^53`.
pub const MANT_END: u64 = 0x20_0000_0000_0000;

/// The largest exponent magnitude a finite value keeps.
pub const EXP_LIMIT: i32 = 2_000;

/// The number `mant · 2^exp`, negated when `neg`.
#[derive(Clone, Copy, Debug, PartialEq, Eq, Structural)]
pub struct Real {
    pub neg: bool,
    pub mant: u64,
    pub exp: i32,
}

impl Real {
    /// Normalised: either the one zero, or a full 53-bit mantissa with a bounded exponent.
    pub open spec fn ok(self) -> bool {
        ||| (self.mant == 0 && self.exp == 0 && !self.neg)
        ||| (MANT_MIN <= self.mant < MANT_END && -EXP_LIMIT <= self.exp <= EXP_LIMIT)
    }

    /// The mantissa with its sign.
    pub open spec fn signed(self) -> int {
        if self.neg {
            -(self.mant as int)
        } else {
            self.mant as int
        }
    }

    /// The value in units of `2^e`, for any `e` not above the exponent.
    pub open spec fn units(self, e: int) -> int {
        if self.mant == 0 {
            0
        } else {
            self.signed() * pow2((self.exp - e) as nat)
        }
    }
}

/// Zero.
pub open spec fn zero() -> Real {
    Real { neg: false, mant: 0, exp: 0 }
}

/// A mantissa and exponent as a [`Real`]: out of range upwards it becomes the largest
/// value, downwards zero.
pub open spec fn packed(neg: bool, mant: nat, exp: int) -> Real {
    if exp > EXP_LIMIT {
        Real { neg, mant: (MANT_END - 1) as u64, exp: EXP_LIMIT }
    } else if exp < -EXP_LIMIT {
        zero()
    } else {
        Real { neg, mant: mant as u64, exp: exp as i32 }
    }
}

/// How many binary digits `n` has.
pub open spec fn bits(n: nat) -> nat
    decreases n,
{
    if n == 0 {
        0
    } else {
        1 + bits(n / 2)
    }
}

/// The magnitude `n · 2^exp`, or (with `more`) something strictly between that and
/// `(n + 1) · 2^exp`, rounded to the nearest 53-bit mantissa, ties to even.
pub open spec fn rounded(neg: bool, n: nat, exp: int, more: bool) -> Real {
    let b = bits(n);
    if n == 0 {
        zero()
    } else if b <= 53 {
        packed(neg, n * pow2((53 - b) as nat), exp - (53 - b))
    } else {
        let sh = (b - 53) as nat;
        let q = n / pow2(sh);
        let rem = n % pow2(sh);
        let half = pow2((sh - 1) as nat);
        if rem > half || (rem == half && (more || q % 2 == 1)) {
            if q + 1 == MANT_END {
                packed(neg, MANT_MIN as nat, exp + sh + 1)
            } else {
                packed(neg, q + 1, exp + sh)
            }
        } else {
            packed(neg, q, exp + sh)
        }
    }
}

/// An integer as a [`Real`].
pub open spec fn of_int(n: int) -> Real {
    if n < 0 {
        rounded(true, (-n) as nat, 0, false)
    } else {
        rounded(false, n as nat, 0, false)
    }
}

/// The product.
pub open spec fn product(a: Real, b: Real) -> Real {
    rounded(a.neg != b.neg, (a.mant * b.mant) as nat, a.exp + b.exp, false)
}

/// The quotient, for a divisor that is not zero.
pub open spec fn quotient(a: Real, b: Real) -> Real {
    let n = (a.mant * pow2(64)) as nat;
    rounded(a.neg != b.neg, n / (b.mant as nat), a.exp - b.exp - 64, n % (b.mant as nat) != 0)
}

/// The sum.
pub open spec fn sum(a: Real, b: Real) -> Real {
    if a.mant == 0 {
        b
    } else if b.mant == 0 {
        a
    } else {
        let e = if a.exp <= b.exp {
            a.exp as int
        } else {
            b.exp as int
        };
        let s = a.units(e) + b.units(e);
        if s < 0 {
            rounded(true, (-s) as nat, e, false)
        } else {
            rounded(false, s as nat, e, false)
        }
    }
}

/// The negated value.
pub open spec fn negated(a: Real) -> Real {
    if a.mant == 0 {
        a
    } else {
        Real { neg: !a.neg, mant: a.mant, exp: a.exp }
    }
}

/// The difference.
pub open spec fn difference(a: Real, b: Real) -> Real {
    sum(a, negated(b))
}

/// The magnitude.
pub open spec fn magnitude(a: Real) -> Real {
    Real { neg: false, mant: a.mant, exp: a.exp }
}

/// The integer square root: the largest `r` with `r² ≤ n`.
pub open spec fn isqrt(n: nat) -> nat
    decreases n,
{
    if n == 0 {
        0
    } else {
        let r = 2 * isqrt(n / 4);
        if (r + 1) * (r + 1) <= n {
            r + 1
        } else {
            r
        }
    }
}

/// The square root of a value that is not negative.
pub open spec fn root(a: Real) -> Real {
    if a.mant == 0 {
        zero()
    } else {
        let odd = a.exp % 2 != 0;
        let n = if odd {
            (a.mant * pow2(55)) as nat
        } else {
            (a.mant * pow2(54)) as nat
        };
        let e = if odd {
            (a.exp - 55) / 2
        } else {
            (a.exp - 54) / 2
        };
        let s = isqrt(n);
        rounded(false, s, e, s * s != n)
    }
}

/// Is `a` strictly below `b`?
pub open spec fn below(a: Real, b: Real) -> bool {
    let e = if a.exp <= b.exp {
        a.exp as int
    } else {
        b.exp as int
    };
    a.units(e) < b.units(e)
}

/// The nearest integer, halves away from zero, held to the range of `i64`.
pub open spec fn nearest(a: Real) -> int {
    let m = if a.exp >= 0 {
        (a.mant * pow2(a.exp as nat)) as int
    } else {
        ((a.mant + pow2((-a.exp - 1) as nat)) / pow2((-a.exp) as nat) as int) as int
    };
    let v = if a.neg {
        -m
    } else {
        m
    };
    if v > i64::MAX {
        i64::MAX as int
    } else if v < i64::MIN {
        i64::MIN as int
    } else {
        v
    }
}

// ---------------------------------------------------------------------------
// Facts about binary digits.
// ---------------------------------------------------------------------------

/// `bits` brackets a number between two powers of two.
pub proof fn bits_bracket(n: nat)
    requires
        n > 0,
    ensures
        bits(n) >= 1,
        pow2((bits(n) - 1) as nat) <= n < pow2(bits(n)),
    decreases n,
{
    lemma2_to64();
    if n == 1 {
        assert(bits(0) == 0);
        assert(bits(1) == 1);
    } else {
        bits_bracket(n / 2);
        let b = bits(n / 2);
        lemma_pow2_unfold(b);
        lemma_pow2_unfold(b + 1);
    }
}

/// The bracket determines `bits`.
proof fn bits_unique(n: nat, b: nat)
    requires
        b >= 1,
        pow2((b - 1) as nat) <= n < pow2(b),
    ensures
        bits(n) == b,
{
    lemma_pow2_pos((b - 1) as nat);
    bits_bracket(n);
    if bits(n) < b {
        if bits(n) < b - 1 {
            lemma_pow2_strictly_increases(bits(n), (b - 1) as nat);
        }
    } else if bits(n) > b {
        if b < bits(n) - 1 {
            lemma_pow2_strictly_increases(b, (bits(n) - 1) as nat);
        }
    }
}

/// Dropping the low `k` digits leaves `k` fewer.
proof fn bits_shift(n: nat, k: nat)
    requires
        n / pow2(k) > 0,
    ensures
        bits(n) == bits(n / pow2(k)) + k,
{
    let m = n / pow2(k);
    let b = bits(m);
    bits_bracket(m);
    lemma_pow2_pos(k);
    lemma_fundamental_div_mod(n as int, pow2(k) as int);
    lemma_mod_bound(n as int, pow2(k) as int);
    lemma_pow2_adds((b - 1) as nat, k);
    lemma_pow2_adds(b, k);
    assert(pow2(k) * pow2((b - 1) as nat) <= pow2(k) * m) by (nonlinear_arith)
        requires
            pow2((b - 1) as nat) <= m,
            pow2(k) > 0,
    ;
    assert(pow2(k) * (m + 1) <= pow2(k) * pow2(b)) by (nonlinear_arith)
        requires
            m + 1 <= pow2(b),
            pow2(k) > 0,
    ;
    assert(pow2(k) * (m + 1) == pow2(k) * m + pow2(k)) by (nonlinear_arith);
    lemma_mul_is_commutative(pow2(k) as int, pow2((b - 1) as nat) as int);
    lemma_mul_is_commutative(pow2(k) as int, pow2(b) as int);
    bits_unique(n, b + k);
}

/// Rounding sees only whether anything was dropped: the low `k` digits can be replaced
/// by that one fact while at least 54 digits remain.
proof fn rounded_compress(neg: bool, n: nat, k: nat, exp: int)
    requires
        bits(n / pow2(k)) >= 54,
    ensures
        rounded(neg, n, exp, false) == rounded(neg, n / pow2(k), exp + k, n % pow2(k) != 0),
{
    lemma_pow2_pos(k);
    let m = n / pow2(k);
    let low = n % pow2(k);
    lemma_div_pos_is_pos(n as int, pow2(k) as int);
    assert(bits(0) == 0);
    bits_shift(n, k);
    let sh0 = (bits(m) - 53) as nat;
    let sh = sh0 + k;
    lemma_pow2_pos(k);
    lemma_pow2_pos(sh0);
    lemma_pow2_pos(sh);
    lemma_pow2_adds(k, sh0);
    lemma_div_denominator(n as int, pow2(k) as int, pow2(sh0) as int);
    assert(n / pow2(sh) == m / pow2(sh0));
    let q = m / pow2(sh0);
    let rem0 = m % pow2(sh0);
    let rem = n % pow2(sh);
    lemma_fundamental_div_mod(n as int, pow2(k) as int);
    lemma_fundamental_div_mod(m as int, pow2(sh0) as int);
    lemma_fundamental_div_mod(n as int, pow2(sh) as int);
    lemma_mod_bound(n as int, pow2(k) as int);
    assert(rem == rem0 * pow2(k) + low) by (nonlinear_arith)
        requires
            n == pow2(k) * m + low,
            m == pow2(sh0) * q + rem0,
            n == pow2(sh) * q + rem,
            pow2(sh) == pow2(k) * pow2(sh0),
    ;
    let half0 = pow2((sh0 - 1) as nat);
    let half = pow2((sh - 1) as nat);
    lemma_pow2_adds((sh0 - 1) as nat, k);
    assert(half == half0 * pow2(k));
    let p = pow2(k);
    assert((rem > half) == (rem0 > half0 || (rem0 == half0 && low > 0))) by (nonlinear_arith)
        requires
            rem == rem0 * p + low,
            half == half0 * p,
            0 <= low < p,
    ;
    assert((rem == half) == (rem0 == half0 && low == 0)) by (nonlinear_arith)
        requires
            rem == rem0 * p + low,
            half == half0 * p,
            0 <= low < p,
    ;
}

/// Rounding a nonzero magnitude of moderate exponent does not give zero.
pub proof fn rounded_nonzero(neg: bool, n: nat, exp: int)
    requires
        n > 0,
        n < 0x4000_0000_0000_0000_0000_0000_0000_0000,
        -1_000 <= exp <= 1_000,
    ensures
        rounded(neg, n, exp, false).mant != 0,
{
    let b = bits(n);
    bits_bracket(n);
    lemma2_to64();
    lemma2_to64_rest();
    lemma_pow2_adds(63, 63);
    assert(0x8000000000000000 * 0x8000000000000000 == 0x4000_0000_0000_0000_0000_0000_0000_0000)
        by (nonlinear_arith);
    assert(pow2(63) == 0x8000000000000000);
    if b > 127 {
        lemma_pow2_strictly_increases(126, (b - 1) as nat);
    }
    if b <= 53 {
        let p = pow2((53 - b) as nat);
        lemma_pow2_pos((53 - b) as nat);
        lemma_pow2_adds(b, (53 - b) as nat);
        assert(0 < n * p < pow2(b) * p) by (nonlinear_arith)
            requires
                0 < n < pow2(b),
                p > 0,
        ;
    } else {
        let sh = (b - 53) as nat;
        let p = pow2(sh);
        lemma_pow2_pos(sh);
        lemma_pow2_adds(53, sh);
        lemma_pow2_adds(52, sh);
        lemma_fundamental_div_mod(n as int, p as int);
        lemma_mod_bound(n as int, p as int);
        let q = n / p;
        assert(MANT_MIN <= q < MANT_END) by (nonlinear_arith)
            requires
                n == p * q + n % p,
                0 <= n % p < p,
                MANT_MIN * p <= n < MANT_END * p,
                p > 0,
        ;
    }
}

/// The integer square root is the floor of the real one.
pub proof fn isqrt_is_floor(n: nat)
    ensures
        isqrt(n) * isqrt(n) <= n < (isqrt(n) + 1) * (isqrt(n) + 1),
    decreases n,
{
    if n > 0 {
        isqrt_is_floor(n / 4);
        let s = isqrt(n / 4);
        let r = 2 * s;
        assert(r * r <= n) by (nonlinear_arith)
            requires
                s * s <= n / 4,
                r == 2 * s,
        ;
        assert(n < (r + 2) * (r + 2)) by (nonlinear_arith)
            requires
                n / 4 < (s + 1) * (s + 1),
                r == 2 * s,
        ;
        let t = isqrt(n);
        assert(t == r || t == r + 1);
        if t == r {
            assert(t * t <= n < (t + 1) * (t + 1));
        } else {
            assert((t + 1) * (t + 1) == (r + 2) * (r + 2));
            assert(t * t <= n);
        }
    } else {
        let t = isqrt(n);
        assert(t * t == 0 && (t + 1) * (t + 1) == 1) by (nonlinear_arith)
            requires
                t == 0,
        ;
    }
}

// ---------------------------------------------------------------------------
// The operations.
// ---------------------------------------------------------------------------

fn bit_len(n: u128) -> (r: u32)
    ensures
        r == bits(n as nat),
        r <= 128,
{
    let mut m: u128 = n;
    let mut b: u32 = 0;
    let ghost mut cap: nat = 128;
    proof {
        lemma2_to64_rest();
        lemma_pow2_adds(64, 64);
        assert(0x1_0000_0000_0000_0000 * 0x1_0000_0000_0000_0000 == 0x1_0000_0000_0000_0000_0000_0000_0000_0000) by (nonlinear_arith);
        assert(pow2(64) == 0x1_0000_0000_0000_0000);
    }
    while m > 0
        invariant
            bits(n as nat) == b + bits(m as nat),
            b + cap == 128,
            m < pow2(cap),
        decreases m,
    {
        proof {
            lemma2_to64();
            if cap == 0 {
                assert(pow2(0) == 1);
            }
            lemma_pow2_unfold(cap);
            cap = (cap - 1) as nat;
        }
        m = m / 2;
        b += 1;
    }
    b
}

/// `2^k`.
fn power(k: u32) -> (r: u128)
    requires
        k <= 126,
    ensures
        r == pow2(k as nat),
        r > 0,
{
    let mut p: u128 = 1;
    let mut i: u32 = 0;
    proof {
        lemma2_to64();
    }
    while i < k
        invariant
            i <= k <= 126,
            p == pow2(i as nat),
            p > 0,
        decreases k - i,
    {
        proof {
            lemma_pow2_unfold((i + 1) as nat);
            lemma2_to64_rest();
            lemma_pow2_adds(63, 63);
            assert(pow2(63) == 0x8000000000000000);
            assert(0x8000000000000000 * 0x8000000000000000 == 0x4000_0000_0000_0000_0000_0000_0000_0000) by (nonlinear_arith);
            assert(pow2(126) == 0x4000_0000_0000_0000_0000_0000_0000_0000);
            if i < 126 {
                lemma_pow2_strictly_increases(i as nat, 126);
            }
        }
        p = p * 2;
        i += 1;
    }
    p
}

fn pack(neg: bool, mant: u64, exp: i64) -> (r: Real)
    requires
        MANT_MIN <= mant < MANT_END,
    ensures
        r == packed(neg, mant as nat, exp as int),
        r.ok(),
{
    if exp > EXP_LIMIT as i64 {
        Real { neg, mant: MANT_END - 1, exp: EXP_LIMIT }
    } else if exp < -(EXP_LIMIT as i64) {
        Real { neg: false, mant: 0, exp: 0 }
    } else {
        Real { neg, mant, exp: exp as i32 }
    }
}

/// Round a wide magnitude to a [`Real`].
fn round_wide(neg: bool, n: u128, exp: i64, more: bool) -> (r: Real)
    requires
        -10_000 <= exp <= 10_000,
    ensures
        r == rounded(neg, n as nat, exp as int, more),
        r.ok(),
{
    if n == 0 {
        return Real { neg: false, mant: 0, exp: 0 };
    }
    let b = bit_len(n);
    proof {
        lemma2_to64();
        lemma2_to64_rest();
        bits_bracket(n as nat);
    }
    if b <= 53 {
        let up = power(53 - b);
        proof {
            lemma_pow2_adds(b as nat, (53 - b) as nat);
            lemma_pow2_adds((b - 1) as nat, (53 - b) as nat);
            let p = pow2((53 - b) as nat);
            assert(n * p < pow2(b as nat) * p) by (nonlinear_arith)
                requires
                    n < pow2(b as nat),
                    p > 0,
            ;
            assert(n * p >= pow2((b - 1) as nat) * p) by (nonlinear_arith)
                requires
                    n >= pow2((b - 1) as nat),
                    p > 0,
            ;
        }
        pack(neg, (n * up) as u64, exp - (53 - b) as i64)
    } else {
        let sh = b - 53;
        let p = power(sh);
        let q: u128 = n / p;
        let rem: u128 = n % p;
        let half = power(sh - 1);
        proof {
            lemma_pow2_adds(53, sh as nat);
            lemma_pow2_adds(52, sh as nat);
            lemma_fundamental_div_mod(n as int, p as int);
            lemma_mod_bound(n as int, p as int);
            assert(q < MANT_END) by (nonlinear_arith)
                requires
                    n == p * q + rem,
                    rem >= 0,
                    n < MANT_END * p,
                    p > 0,
            ;
            assert(q >= MANT_MIN) by (nonlinear_arith)
                requires
                    n == p * q + rem,
                    rem < p,
                    n >= MANT_MIN * p,
                    p > 0,
            ;
        }
        if rem > half || (rem == half && (more || q % 2 == 1)) {
            if q + 1 == MANT_END as u128 {
                pack(neg, MANT_MIN, exp + sh as i64 + 1)
            } else {
                pack(neg, (q + 1) as u64, exp + sh as i64)
            }
        } else {
            pack(neg, q as u64, exp + sh as i64)
        }
    }
}

impl Real {
    /// An integer as a [`Real`], rounded when it has more than 53 digits.
    pub fn from_int(n: i128) -> (r: Real)
        ensures
            r == of_int(n as int),
            r.ok(),
    {
        if n < 0 {
            let m: u128 = (-(n + 1)) as u128 + 1;
            round_wide(true, m, 0, false)
        } else {
            round_wide(false, n as u128, 0, false)
        }
    }

    /// Product, correctly rounded.
    pub fn times(self, o: Real) -> (r: Real)
        requires
            self.ok(),
            o.ok(),
        ensures
            r == product(self, o),
            r.ok(),
    {
        proof {
            lemma_mul_upper_bound(
                self.mant as int,
                MANT_END as int,
                o.mant as int,
                MANT_END as int,
            );
            lemma_mul_nonnegative(self.mant as int, o.mant as int);
        }
        let n: u128 = (self.mant as u128) * (o.mant as u128);
        round_wide(self.neg != o.neg, n, self.exp as i64 + o.exp as i64, false)
    }

    /// Quotient, correctly rounded.
    pub fn over(self, o: Real) -> (r: Real)
        requires
            self.ok(),
            o.ok(),
            o.mant != 0,
        ensures
            r == quotient(self, o),
            r.ok(),
    {
        let p = power(64);
        proof {
            lemma2_to64();
            lemma2_to64_rest();
        }
        let n: u128 = (self.mant as u128) * p;
        let d: u128 = o.mant as u128;
        round_wide(self.neg != o.neg, n / d, self.exp as i64 - o.exp as i64 - 64, n % d != 0)
    }

    /// The negated value.
    pub fn minus_sign(self) -> (r: Real)
        requires
            self.ok(),
        ensures
            r == negated(self),
            r.ok(),
    {
        if self.mant == 0 {
            self
        } else {
            Real { neg: !self.neg, mant: self.mant, exp: self.exp }
        }
    }

    /// The magnitude.
    pub fn abs(self) -> (r: Real)
        requires
            self.ok(),
        ensures
            r == magnitude(self),
            r.ok(),
    {
        Real { neg: false, mant: self.mant, exp: self.exp }
    }
}

/// Sum of two nonzero values, the first with the larger exponent.
fn add_aligned(hi: Real, lo: Real) -> (r: Real)
    requires
        hi.ok(),
        lo.ok(),
        hi.mant != 0,
        lo.mant != 0,
        hi.exp >= lo.exp,
    ensures
        r == sum(hi, lo),
        r.ok(),
{
    let d: u32 = (hi.exp - lo.exp) as u32;
    proof {
        lemma2_to64();
        lemma2_to64_rest();
    }
    if d <= 60 {
        let p = power(d);
        proof {
            if d < 60 {
                lemma_pow2_strictly_increases(d as nat, 60);
            }
            assert(hi.mant * p <= 0x20_0000_0000_0000 * 0x1000_0000_0000_0000) by (nonlinear_arith)
                requires
                    hi.mant < 0x20_0000_0000_0000,
                    0 < p <= 0x1000_0000_0000_0000,
            ;
            assert(hi.mant * p >= 0) by (nonlinear_arith)
                requires
                    hi.mant >= 0,
                    p > 0,
            ;
        }
        let h: i128 = ((hi.mant as u128) * p) as i128;
        let l: i128 = lo.mant as i128;
        let hs: i128 = if hi.neg {
            -h
        } else {
            h
        };
        let ls: i128 = if lo.neg {
            -l
        } else {
            l
        };
        let s: i128 = hs + ls;
        proof {
            assert(hi.units(lo.exp as int) == hs) by (nonlinear_arith)
                requires
                    hi.units(lo.exp as int) == hi.signed() * p,
                    h == hi.mant * p,
                    hi.neg ==> hs == -h && hi.signed() == -(hi.mant as int),
                    !hi.neg ==> hs == h && hi.signed() == hi.mant,
            ;
            assert(lo.units(lo.exp as int) == lo.signed() * pow2(0));
            assert(lo.units(lo.exp as int) == ls);
        }
        if s < 0 {
            round_wide(true, (-s) as u128, lo.exp as i64, false)
        } else {
            round_wide(false, s as u128, lo.exp as i64, false)
        }
    } else {
        let k: u32 = d - 60;
        let big: u128 = (hi.mant as u128) * 0x1000_0000_0000_0000u128;
        let same = hi.neg == lo.neg;
        // `lo` in units of the coarser grid, with what the grid drops.
        let whole: u128;
        let dropped: bool;
        let ghost pk: int = pow2(k as nat) as int;
        proof {
            lemma_pow2_pos(k as nat);
        }
        if k >= 53 {
            proof {
                if k > 53 {
                    lemma_pow2_strictly_increases(53, k as nat);
                }
                lemma_fundamental_div_mod_converse(lo.mant as int, pk, 0, lo.mant as int);
            }
            whole = 0;
            dropped = true;
        } else {
            let p = power(k);
            proof {
                lemma_div_nonincreasing(lo.mant as int, pk);
            }
            whole = (lo.mant as u128) / p;
            dropped = (lo.mant as u128) % p != 0;
        }
        let ghost l: int = lo.mant as int;
        let ghost rest: int = l % pk;
        let ghost n: int = if same {
            hi.mant * pow2(d as nat) + l
        } else {
            hi.mant * pow2(d as nat) - l
        };
        let m: u128 = if same {
            big + whole
        } else if dropped {
            big - whole - 1
        } else {
            big - whole
        };
        proof {
            lemma_pow2_adds(60, k as nat);
            lemma_fundamental_div_mod(l, pk);
            lemma_mod_bound(l, pk);
            assert(whole <= l && whole == l / pk) by {
                lemma_div_nonincreasing(l, pk);
            }
            let b = big as int;
            let w = whole as int;
            let hm = hi.mant as int;
            assert(hm * pow2(d as nat) == b * pk) by (nonlinear_arith)
                requires
                    pow2(d as nat) == 0x1000_0000_0000_0000 * pk,
                    b == hm * 0x1000_0000_0000_0000,
            ;
            let r0: int = if same {
                rest
            } else if dropped {
                pk - rest
            } else {
                0
            };
            assert(n == m * pk + r0) by (nonlinear_arith)
                requires
                    l == pk * w + rest,
                    same ==> n == b * pk + l && m == b + w && r0 == rest,
                    !same && dropped ==> n == b * pk - l && m == b - w - 1 && r0 == pk - rest,
                    !same && !dropped ==> n == b * pk - l && m == b - w && r0 == 0 && rest == 0,
            ;
            lemma_fundamental_div_mod_converse(n, pk, m as int, r0);
            assert(n >= 0) by (nonlinear_arith)
                requires
                    n == m * pk + r0,
                    m >= 0,
                    pk > 0,
                    r0 >= 0,
            ;
            bits_bracket(m as nat);
            if bits(m as nat) < 54 {
                if bits(m as nat) < 53 {
                    lemma_pow2_strictly_increases(bits(m as nat), 53);
                }
            }
            rounded_compress(hi.neg, n as nat, k as nat, lo.exp as int);
            let e = lo.exp as int;
            assert(hi.units(e) == if hi.neg { -(b * pk) } else { b * pk }) by (nonlinear_arith)
                requires
                    hi.units(e) == hi.signed() * pow2(d as nat),
                    hm * pow2(d as nat) == b * pk,
                    hi.neg ==> hi.signed() == -hm,
                    !hi.neg ==> hi.signed() == hm,
            ;
            assert(lo.units(e) == lo.signed() * pow2(0));
            assert(n > 0) by (nonlinear_arith)
                requires
                    n == m * pk + r0,
                    m >= 1,
                    pk > 0,
                    r0 >= 0,
            ;
        }
        round_wide(hi.neg, m, lo.exp as i64 + k as i64, dropped)
    }
}

fn isqrt_wide(n: u128) -> (r: u128)
    requires
        n < 0x1_0000_0000_0000_0000_0000_0000_0000,
    ensures
        r == isqrt(n as nat),
    decreases n,
{
    if n == 0 {
        0
    } else {
        let s = isqrt_wide(n / 4);
        proof {
            isqrt_is_floor((n / 4) as nat);
            assert(s < 0x100_0000_0000_0000) by (nonlinear_arith)
                requires
                    s * s <= n / 4,
                    n < 0x1_0000_0000_0000_0000_0000_0000_0000,
            ;
            assert((2 * s + 1) * (2 * s + 1) <= 0x400_0000_0000_0000 * 0x400_0000_0000_0000) by (nonlinear_arith)
                requires
                    0 <= s < 0x100_0000_0000_0000,
            ;
        }
        let r: u128 = 2 * s;
        if (r + 1) * (r + 1) <= n {
            r + 1
        } else {
            r
        }
    }
}

/// Is the magnitude of `a` below that of `b`? (Both nonzero.)
fn magnitude_below(a: Real, b: Real) -> (r: bool)
    requires
        a.ok(),
        b.ok(),
        a.mant != 0,
        b.mant != 0,
    ensures
        r == below(magnitude(a), magnitude(b)),
{
    proof {
        lemma2_to64();
        let e = if a.exp <= b.exp {
            a.exp as int
        } else {
            b.exp as int
        };
        let pa = pow2((a.exp - e) as nat);
        let pb = pow2((b.exp - e) as nat);
        if a.exp < b.exp {
            lemma_pow2_unfold((b.exp - e) as nat);
            lemma_pow2_pos((b.exp - e - 1) as nat);
            assert(b.mant * pb > a.mant) by (nonlinear_arith)
                requires
                    pb >= 2,
                    b.mant >= 0x10_0000_0000_0000,
                    a.mant < 0x20_0000_0000_0000,
            ;
        } else if a.exp > b.exp {
            lemma_pow2_unfold((a.exp - e) as nat);
            lemma_pow2_pos((a.exp - e - 1) as nat);
            assert(a.mant * pa > b.mant) by (nonlinear_arith)
                requires
                    pa >= 2,
                    a.mant >= 0x10_0000_0000_0000,
                    b.mant < 0x20_0000_0000_0000,
            ;
        }
    }
    a.exp < b.exp || (a.exp == b.exp && a.mant < b.mant)
}

impl Real {
    /// Sum, correctly rounded.
    pub fn plus(self, o: Real) -> (r: Real)
        requires
            self.ok(),
            o.ok(),
        ensures
            r == sum(self, o),
            r.ok(),
    {
        if self.mant == 0 {
            o
        } else if o.mant == 0 {
            self
        } else if self.exp >= o.exp {
            add_aligned(self, o)
        } else {
            add_aligned(o, self)
        }
    }

    /// Difference, correctly rounded.
    pub fn less(self, o: Real) -> (r: Real)
        requires
            self.ok(),
            o.ok(),
        ensures
            r == difference(self, o),
            r.ok(),
    {
        self.plus(o.minus_sign())
    }

    /// Square root of a value that is not negative, correctly rounded.
    pub fn sqrt(self) -> (r: Real)
        requires
            self.ok(),
            !self.neg,
        ensures
            r == root(self),
            r.ok(),
    {
        if self.mant == 0 {
            return Real { neg: false, mant: 0, exp: 0 };
        }
        proof {
            lemma2_to64();
            lemma2_to64_rest();
        }
        let e: i64 = self.exp as i64;
        let odd = if e >= 0 {
            e % 2 != 0
        } else {
            (-e) % 2 != 0
        };
        let (n, h): (u128, i64) = if odd {
            ((self.mant as u128) * power(55), (e - 55) / 2)
        } else {
            ((self.mant as u128) * power(54), (e - 54) / 2)
        };
        let s = isqrt_wide(n);
        proof {
            isqrt_is_floor(n as nat);
            assert(s * s >= 0) by (nonlinear_arith);
        }
        round_wide(false, s, h, s * s != n)
    }

    /// Is this strictly below `o`?
    pub fn is_below(self, o: Real) -> (r: bool)
        requires
            self.ok(),
            o.ok(),
        ensures
            r == below(self, o),
    {
        proof {
            let e = if self.exp <= o.exp {
                self.exp as int
            } else {
                o.exp as int
            };
            lemma_pow2_pos((self.exp - e) as nat);
            lemma_pow2_pos((o.exp - e) as nat);
            let pa = pow2((self.exp - e) as nat) as int;
            let pb = pow2((o.exp - e) as nat) as int;
            assert(-(self.mant as int) * pa == -(self.mant * pa)) by (nonlinear_arith);
            assert(-(o.mant as int) * pb == -(o.mant * pb)) by (nonlinear_arith);
            assert(self.mant > 0 ==> self.mant * pa > 0) by (nonlinear_arith)
                requires
                    pa > 0,
            ;
            assert(o.mant > 0 ==> o.mant * pb > 0) by (nonlinear_arith)
                requires
                    pb > 0,
            ;
        }
        if self.mant == 0 {
            o.mant != 0 && !o.neg
        } else if o.mant == 0 {
            self.neg
        } else if self.neg != o.neg {
            self.neg
        } else if self.neg {
            magnitude_below(o, self)
        } else {
            magnitude_below(self, o)
        }
    }

    /// The nearest integer, halves away from zero, held to the range of `i64`.
    pub fn round(self) -> (r: i64)
        requires
            self.ok(),
        ensures
            r == nearest(self),
    {
        proof {
            lemma2_to64();
            lemma2_to64_rest();
        }
        let m: u128 = if self.exp >= 0 {
            if self.exp >= 11 {
                proof {
                    if self.exp > 11 {
                        lemma_pow2_strictly_increases(11, self.exp as nat);
                    }
                    let p = pow2(self.exp as nat) as int;
                    assert(self.mant * p >= 0x8000_0000_0000_0000) by (nonlinear_arith)
                        requires
                            self.mant >= 0x10_0000_0000_0000,
                            p >= 0x800,
                    ;
                }
                return if self.neg {
                    i64::MIN
                } else {
                    i64::MAX
                };
            }
            let p = power(self.exp as u32);
            proof {
                if self.exp < 11 {
                    lemma_pow2_strictly_increases(self.exp as nat, 11);
                }
                assert(self.mant * p <= 0x20_0000_0000_0000 * 0x800) by (nonlinear_arith)
                    requires
                        self.mant < 0x20_0000_0000_0000,
                        0 < p <= 0x800,
                ;
                assert(self.mant * p >= 0) by (nonlinear_arith)
                    requires
                        self.mant >= 0,
                        p > 0,
                ;
            }
            (self.mant as u128) * p
        } else {
            let sh: u32 = (-self.exp) as u32;
            if sh > 60 {
                proof {
                    lemma_pow2_strictly_increases(53, (sh - 1) as nat);
                    lemma_pow2_unfold(sh as nat);
                    let t = self.mant + pow2((sh - 1) as nat);
                    lemma_basic_div(t as int, pow2(sh as nat) as int);
                }
                return 0;
            }
            proof {
                lemma_pow2_unfold(sh as nat);
                if sh < 60 {
                    lemma_pow2_strictly_increases(sh as nat, 60);
                }
            }
            let t: u128 = self.mant as u128 + power(sh - 1);
            let p = power(sh);
            proof {
                lemma_div_nonincreasing(t as int, p as int);
            }
            t / p
        };
        if self.neg {
            if m > 0x8000_0000_0000_0000u128 {
                i64::MIN
            } else {
                (-(m as i128)) as i64
            }
        } else {
            if m > 0x7fff_ffff_ffff_ffffu128 {
                i64::MAX
            } else {
                m as i64
            }
        }
    }
}

} // verus!
