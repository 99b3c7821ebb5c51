//! How far binary floating-point results lie from the exact ones.

use crate::binary64;
use crate::binary64::{Real, MANT_END, MANT_MIN};
use vstd::arithmetic::div_mod::*;
use vstd::arithmetic::mul::*;
use vstd::arithmetic::power2::*;
use vstd::prelude::*;

verus! {

/// The magnitude of a number.
pub open spec fn size(x: real) -> real {
    if x < 0 as real {
        0 as real - x
    } else {
        x
    }
}

/// The number that a [`Real`] stands for.
pub open spec fn value(a: Real) -> real {
    (a.units(-4_096) as real) / (pow2(4_096) as real)
}

/// `x` is `exact` rounded: it is off by at most one part in `2^53`.
pub open spec fn near(x: real, exact: real) -> bool {
    size(x - exact) * (9_007_199_254_740_992 as real) <= size(exact)
}

/// The exponent is at most `k` in magnitude.
pub open spec fn fits(a: Real, k: int) -> bool {
    a.ok() && (a.mant == 0 || -k <= a.exp <= k)
}

/// The mantissa in units of the smallest scale.
spec fn weight(a: Real) -> int {
    a.mant * pow2((a.exp + 4_096) as nat)
}

proof fn mantissa_of_few(n: nat, b: nat)
    requires
        1 <= b <= 53,
        pow2((b - 1) as nat) <= n < pow2(b),
    ensures
        MANT_MIN <= n * pow2((53 - b) as nat) < MANT_END,
{
    let p = pow2((53 - b) as nat);
    lemma_pow2_pos((53 - b) as nat);
    lemma_pow2_adds(b, (53 - b) as nat);
    lemma_pow2_adds((b - 1) as nat, (53 - b) as nat);
    lemma2_to64();
    lemma2_to64_rest();
    assert(pow2((b - 1) as nat) * p <= n * p < pow2(b) * p) by (nonlinear_arith)
        requires
            pow2((b - 1) as nat) <= n < pow2(b),
            p > 0,
    ;
}

proof fn mantissa_of_many(n: nat, b: nat)
    requires
        b > 53,
        pow2((b - 1) as nat) <= n < pow2(b),
    ensures
        MANT_MIN <= n / pow2((b - 53) as nat) < MANT_END,
{
    let sh = (b - 53) as nat;
    let p = pow2(sh);
    lemma_pow2_pos(sh);
    lemma_pow2_adds(53, sh);
    lemma_pow2_adds(52, sh);
    lemma2_to64();
    lemma2_to64_rest();
    lemma_fundamental_div_mod(n as int, p as int);
    lemma_mod_bound(n as int, p as int);
    let q = n / p;
    assert(MANT_MIN <= q < MANT_END) by (nonlinear_arith)
        requires
            n == p * q + n % p,
            0 <= n % p < p,
            MANT_MIN * p <= n < MANT_END * p,
            p > 0,
    ;
}

/// Rounding to a multiple of `p` by the upper half misses by at most half of it.
proof fn halves(q: int, rem: int, p: int, half: int, m: int, y: int, c: int)
    requires
        p == 2 * half,
        half > 0,
        c > 0,
        MANT_MIN <= q,
        0 <= rem < p,
        // The exact number is `(q·p + rem)·c`, or up to one `c` more.
        (q * p + rem) * c <= y <= (q * p + rem + 1) * c,
        m == q && rem <= half && (rem == half ==> y == (q * p + rem) * c) || m == q + 1 && rem
            >= half,
    ensures
        (m * p * c - y) * MANT_END <= y,
        (y - m * p * c) * MANT_END <= y,
{
    let hc = half * c;
    assert(hc > 0) by (nonlinear_arith)
        requires
            hc == half * c,
            half > 0,
            c > 0,
    ;
    assert((q * p + rem) * c == q * p * c + rem * c) by (nonlinear_arith);
    assert((q * p + rem + 1) * c == q * p * c + rem * c + c) by (nonlinear_arith);
    assert(q * p * c == 2 * (q * hc)) by (nonlinear_arith)
        requires
            p == 2 * half,
            hc == half * c,
    ;
    assert(q * hc >= MANT_MIN * hc) by (nonlinear_arith)
        requires
            q >= MANT_MIN,
            hc > 0,
    ;
    assert(rem * c >= 0) by (nonlinear_arith)
        requires
            rem >= 0,
            c > 0,
    ;
    if m == q {
        if rem < half {
            assert(rem * c + c <= half * c) by (nonlinear_arith)
                requires
                    rem + 1 <= half,
                    c > 0,
            ;
        }
    } else {
        assert((q + 1) * p * c == q * p * c + 2 * hc) by (nonlinear_arith)
            requires
                p == 2 * half,
                hc == half * c,
        ;
        assert(rem * c >= hc) by (nonlinear_arith)
            requires
                rem >= half,
                c > 0,
                hc == half * c,
        ;
        assert(rem * c + c <= 2 * hc) by (nonlinear_arith)
            requires
                rem + 1 <= 2 * half,
                c > 0,
                hc == half * c,
        ;
    }
}

/// What rounding gives of a number `y / k` is a multiple of the unit that is near it.
proof fn rounded_is_near(neg: bool, n: nat, exp: int, more: bool, k: int, y: int)
    requires
        n > 0,
        k > 0,
        -1_500 <= exp,
        exp + binary64::bits(n) <= 1_500,
        more ==> binary64::bits(n) > 53,
        ({
            let c = pow2((exp + 4_096) as nat) * k;
            &&& n * c <= y
            &&& if more {
                y <= (n + 1) * c
            } else {
                y == n * c
            }
        }),
    ensures
        ({
            let r = binary64::rounded(neg, n, exp, more);
            &&& r.neg == neg
            &&& MANT_MIN <= r.mant < MANT_END
            &&& exp - 53 <= r.exp <= exp + binary64::bits(n)
            &&& (weight(r) * k - y) * MANT_END <= y
            &&& (y - weight(r) * k) * MANT_END <= y
            &&& binary64::bits(n) <= 53 ==> weight(r) * k == y
        }),
{
    let r = binary64::rounded(neg, n, exp, more);
    let b = binary64::bits(n);
    let unit = pow2((exp + 4_096) as nat);
    let c = unit * k;
    binary64::bits_bracket(n);
    lemma_pow2_pos((exp + 4_096) as nat);
    assert(c > 0) by (nonlinear_arith)
        requires
            unit > 0,
            k > 0,
            c == unit * k,
    ;
    if b <= 53 {
        mantissa_of_few(n, b);
        lemma_pow2_adds((53 - b) as nat, (exp - (53 - b) + 4_096) as nat);
        let (f, g) = (pow2((53 - b) as nat), pow2((exp - (53 - b) + 4_096) as nat));
        assert(n * f * g * k == n * (f * g * k)) by (nonlinear_arith);
        assert(weight(r) == n * f * g);
        assert(weight(r) * k == y);
        assert(y >= 0) by (nonlinear_arith)
            requires
                y == n * c,
                c > 0,
                n > 0,
        ;
    } else {
        let sh = (b - 53) as nat;
        let p = pow2(sh);
        let q = n / p;
        let rem = n % p;
        mantissa_of_many(n, b);
        lemma_pow2_pos(sh);
        lemma_pow2_unfold(sh);
        lemma_pow2_pos((sh - 1) as nat);
        lemma_fundamental_div_mod(n as int, p as int);
        lemma_mod_bound(n as int, p as int);
        lemma_mul_is_commutative(p as int, q as int);
        lemma_pow2_adds(sh, (exp + 4_096) as nat);
        let half = pow2((sh - 1) as nat);
        let up = rem > half || (rem == half && (more || q % 2 == 1));
        let m: int = if up {
            (q + 1) as int
        } else {
            q as int
        };
        assert(n == q * p + rem);
        lemma_mul_is_distributive_add_other_way(c as int, n as int, 1);
        halves(q as int, rem as int, p as int, half as int, m, y, c as int);
        assert(m * p * c == m * (p * unit) * k) by (nonlinear_arith)
            requires
                c == unit * k,
        ;
        if m == MANT_END {
            lemma2_to64_rest();
            lemma_pow2_unfold((exp + sh + 1 + 4_096) as nat);
            let pu = p * unit;
            assert(pow2((exp + sh + 1 + 4_096) as nat) == 2 * pu);
            assert(weight(r) == MANT_MIN * (2 * pu));
            assert(MANT_MIN * (2 * pu) == MANT_END * pu) by (nonlinear_arith);
            assert(m * pu == MANT_END * pu);
            assert(weight(r) == m * (p * unit));
        } else {
            assert(weight(r) == m * pow2((sh + (exp + 4_096)) as nat));
            assert(weight(r) == m * (p * unit));
        }
    }
}

/// A number is fixed by its multiple.
proof fn unscaled(x: real, exact: real, s: real)
    requires
        s > 0 as real,
        near(x * s, exact * s),
    ensures
        near(x, exact),
{
    let d = size(x - exact);
    assert(size(x * s - exact * s) == d * s) by {
        assert((x - exact) * s == x * s - exact * s) by (nonlinear_arith);
        assert((x - exact) * s < 0 as real <==> x - exact < 0 as real) by (nonlinear_arith)
            requires
                s > 0 as real,
        ;
        assert((0 as real - (x - exact)) * s == 0 as real - (x - exact) * s) by (nonlinear_arith);
    }
    assert(size(exact * s) == size(exact) * s) by {
        assert(exact * s < 0 as real <==> exact < 0 as real) by (nonlinear_arith)
            requires
                s > 0 as real,
        ;
        assert((0 as real - exact) * s == 0 as real - exact * s) by (nonlinear_arith);
    }
    let (k, e) = (9_007_199_254_740_992 as real, size(exact));
    assert(d * k <= e) by (nonlinear_arith)
        requires
            (d * s) * k <= e * s,
            s > 0 as real,
    ;
}

/// A [`Real`] is its units over the scale.
proof fn value_times_scale(a: Real)
    ensures
        value(a) * (pow2(4_096) as real) == a.units(-4_096) as real,
        pow2(4_096) > 0,
{
    lemma_pow2_pos(4_096);
    let (n, s) = (a.units(-4_096) as real, pow2(4_096) as real);
    assert((n / s) * s == n) by (nonlinear_arith)
        requires
            s > 0 as real,
    ;
}

/// The product of integers is the product of the numbers they are.
pub proof fn int_product(a: int, b: int)
    ensures
        (a * b) as real == (a as real) * (b as real),
{
    assert((a * b) as real == (a as real) * (b as real)) by (nonlinear_arith);
}

/// A rounded integer is near it.
proof fn near_of_ints(x: int, y: int)
    requires
        y >= 0 ==> (x - y) * MANT_END <= y && (y - x) * MANT_END <= y,
        y < 0 ==> (x - y) * MANT_END <= -y && (y - x) * MANT_END <= -y,
    ensures
        near(x as real, y as real),
{
}

proof fn bits_at_most(n: nat, k: nat)
    requires
        n < pow2(k),
    ensures
        binary64::bits(n) <= k,
{
    if n > 0 {
        binary64::bits_bracket(n);
        if binary64::bits(n) > k {
            if k < binary64::bits(n) - 1 {
                lemma_pow2_strictly_increases(k, (binary64::bits(n) - 1) as nat);
            }
        }
    }
}

/// The units are the weight with its sign.
proof fn units_are_weight(a: Real)
    ensures
        a.units(-4_096) == if a.neg {
            -weight(a)
        } else {
            weight(a)
        },
        weight(a) >= 0,
{
    let p = pow2((a.exp + 4_096) as nat);
    lemma_mul_unary_negation(a.mant as int, p as int);
    assert(a.mant * p >= 0) by (nonlinear_arith);
    assert(a.mant == 0 ==> a.mant * p == 0) by (nonlinear_arith);
}

/// Units of one scale in units of the smallest.
proof fn rescaled(a: Real, e: int)
    requires
        -4_096 <= e <= a.exp,
    ensures
        a.units(e) * pow2((e + 4_096) as nat) == a.units(-4_096),
{
    let (x, y) = (pow2((a.exp - e) as nat), pow2((e + 4_096) as nat));
    lemma_pow2_adds((a.exp - e) as nat, (e + 4_096) as nat);
    lemma_mul_is_associative(a.signed(), x as int, y as int);
    assert(0 * y == 0) by (nonlinear_arith);
}

/// A zero mantissa stands for zero.
pub proof fn value_of_zero(a: Real)
    requires
        a.mant == 0,
    ensures
        value(a) == 0 as real,
{
    value_times_scale(a);
    let (v, s) = (value(a), pow2(4_096) as real);
    assert(v == 0 as real) by (nonlinear_arith)
        requires
            v * s == 0 as real,
            s > 0 as real,
    ;
}

/// Small integers are kept.
pub proof fn int_is_kept(n: int)
    requires
        -MANT_END < n < MANT_END,
    ensures
        value(binary64::of_int(n)) == n as real,
        fits(binary64::of_int(n), 53),
{
    let r = binary64::of_int(n);
    let m: nat = if n < 0 {
        (-n) as nat
    } else {
        n as nat
    };
    lemma2_to64_rest();
    if n == 0 {
        value_of_zero(r);
    } else {
        bits_at_most(m, 53);
        lemma_pow2_pos(4_096);
        let y = m * pow2(4_096);
        assert(y == m * (pow2(4_096) * 1));
        rounded_is_near(n < 0, m, 0, false, 1, y as int);
        units_are_weight(r);
        value_times_scale(r);
        assert(weight(r) == y);
        lemma_mul_unary_negation(m as int, pow2(4_096) as int);
        assert(r.units(-4_096) == n * pow2(4_096));
        int_product(n, pow2(4_096) as int);
        let (v, x, s) = (value(r), n as real, pow2(4_096) as real);
        assert(v == x) by (nonlinear_arith)
            requires
                v * s == x * s,
                s > 0 as real,
        ;
    }
}

/// A product is near the exact one.
pub proof fn product_is_near(a: Real, b: Real, i: int, j: int)
    requires
        fits(a, i),
        fits(b, j),
        0 <= i,
        0 <= j,
        i + j <= 1_300,
    ensures
        near(value(binary64::product(a, b)), value(a) * value(b)),
        fits(binary64::product(a, b), i + j + 106),
{
    let r = binary64::product(a, b);
    let n = (a.mant * b.mant) as nat;
    let (va, vb) = (value(a), value(b));
    assert(a.mant * b.mant >= 0) by (nonlinear_arith);
    if a.mant == 0 || b.mant == 0 {
        assert(n == 0) by (nonlinear_arith)
            requires
                n == a.mant * b.mant,
                a.mant == 0 || b.mant == 0,
        ;
        value_of_zero(r);
        if a.mant == 0 {
            value_of_zero(a);
        } else {
            value_of_zero(b);
        }
        assert(va * vb == 0 as real) by (nonlinear_arith)
            requires
                va == 0 as real || vb == 0 as real,
        ;
    } else {
        let (x, z) = (pow2((a.exp + 4_096) as nat), pow2((b.exp + 4_096) as nat));
        let s = pow2(4_096);
        let unit = pow2((a.exp + b.exp + 4_096) as nat);
        lemma2_to64_rest();
        lemma_pow2_adds(53, 53);
        assert(0 < n < MANT_END * MANT_END) by (nonlinear_arith)
            requires
                n == a.mant * b.mant,
                0 < a.mant < MANT_END,
                0 < b.mant < MANT_END,
        ;
        bits_at_most(n, 106);
        let y = n * unit;
        assert(y == n * (unit * 1));
        rounded_is_near(a.neg != b.neg, n, a.exp + b.exp, false, 1, y as int);
        assert(weight(r) * 1 == weight(r));
        units_are_weight(r);
        units_are_weight(a);
        units_are_weight(b);
        lemma_pow2_adds((a.exp + 4_096) as nat, (b.exp + 4_096) as nat);
        lemma_pow2_adds((a.exp + b.exp + 4_096) as nat, 4_096);
        let (ma, mb) = (a.mant as int, b.mant as int);
        assert((ma * x) * (mb * z) == (ma * mb) * (x * z)) by (nonlinear_arith);
        lemma_mul_is_associative(n as int, unit as int, s as int);
        assert(weight(a) * weight(b) == y * s);
        let (ua, ub) = (a.units(-4_096), b.units(-4_096));
        let signed_y: int = if a.neg != b.neg {
            -y
        } else {
            y as int
        };
        let (wa, wb) = (weight(a), weight(b));
        assert((-wa) * wb == -(wa * wb) && wa * (-wb) == -(wa * wb) && (-wa) * (-wb) == wa * wb)
            by (nonlinear_arith);
        lemma_mul_unary_negation(y as int, s as int);
        assert(ua * ub == signed_y * s);
        near_of_ints(r.units(-4_096), signed_y);
        value_times_scale(a);
        value_times_scale(b);
        value_times_scale(r);
        int_product(ua, ub);
        int_product(signed_y, s as int);
        let (sr, ry) = (s as real, signed_y as real);
        assert((va * vb) * sr == ry) by (nonlinear_arith)
            requires
                (va * sr) * (vb * sr) == ry * sr,
                sr > 0 as real,
        ;
        unscaled(value(r), va * vb, sr);
    }
}

/// The quotient of a positive mantissa by another, in 64 more digits.
proof fn quotient_weight(a: Real, b: Real)
    requires
        a.ok(),
        b.ok(),
        a.mant != 0,
        b.mant != 0,
        -1_200 <= a.exp - b.exp <= 1_200,
    ensures
        ({
            let r = binary64::quotient(a, b);
            let exact = weight(a) * pow2(4_096);
            &&& r.neg == (a.neg != b.neg)
            &&& MANT_MIN <= r.mant < MANT_END
            &&& a.exp - b.exp - 117 <= r.exp <= a.exp - b.exp + 117
            &&& (weight(r) * weight(b) - exact) * MANT_END <= exact
            &&& (exact - weight(r) * weight(b)) * MANT_END <= exact
        }),
{
    let r = binary64::quotient(a, b);
    let (ma, mb) = (a.mant as int, b.mant as int);
    let n0 = (a.mant * pow2(64)) as nat;
    let n = n0 / (b.mant as nat);
    let rem = n0 % (b.mant as nat);
    lemma2_to64_rest();
    lemma_pow2_adds(53, 64);
    lemma_pow2_adds(52, 64);
    assert(pow2(64) * MANT_MIN <= n0 < MANT_END * pow2(64)) by (nonlinear_arith)
        requires
            n0 == ma * pow2(64),
            MANT_MIN <= ma < MANT_END,
            pow2(64) > 0,
    ;
    lemma_fundamental_div_mod(n0 as int, mb);
    lemma_mod_bound(n0 as int, mb);
    assert(n <= n0) by (nonlinear_arith)
        requires
            n0 == mb * n + rem,
            mb >= 1,
            rem >= 0,
    ;
    bits_at_most(n, 117);
    assert(n >= MANT_END) by (nonlinear_arith)
        requires
            n0 == mb * n + rem,
            rem < mb,
            0 < mb < MANT_END,
            n0 >= 0x1_0000_0000_0000_0000 * MANT_MIN,
    ;
    if binary64::bits(n) <= 53 {
        binary64::bits_bracket(n);
        if binary64::bits(n) < 53 {
            lemma_pow2_strictly_increases(binary64::bits(n), 53);
        }
    }
    let exp = a.exp - b.exp - 64;
    let unit = pow2((exp + 4_096) as nat);
    let up = pow2((b.exp + 4_096) as nat);
    let s = pow2(4_096);
    lemma_pow2_pos((exp + 4_096) as nat);
    lemma_pow2_pos((b.exp + 4_096) as nat);
    let y = n0 * unit;
    let c = unit * mb;
    assert(n * c <= y && (n + 1) * c >= y && (rem == 0 ==> n * c == y)) by (nonlinear_arith)
        requires
            n0 == mb * n + rem,
            0 <= rem < mb,
            y == n0 * unit,
            c == unit * mb,
            unit > 0,
    ;
    rounded_is_near(a.neg != b.neg, n, exp, rem != 0, mb, y as int);
    let w = weight(r);
    assert(w * mb * up == w * (mb * up)) by (nonlinear_arith);
    lemma_pow2_adds((exp + 4_096) as nat, (b.exp + 4_096) as nat);
    lemma_pow2_adds(64, (exp + 4_096 + (b.exp + 4_096)) as nat);
    lemma_pow2_adds((a.exp + 4_096) as nat, 4_096);
    assert(y * up == ma * (pow2(64) * (unit * up))) by (nonlinear_arith)
        requires
            y == n0 * unit,
            n0 == ma * pow2(64),
    ;
    lemma_mul_is_associative(ma, pow2((a.exp + 4_096) as nat) as int, s as int);
    let exact = weight(a) * s;
    assert(y * up == exact);
    let d = w * mb - y;
    assert(d * up == w * mb * up - y * up) by (nonlinear_arith)
        requires
            d == w * mb - y,
    ;
    assert((d * up) * MANT_END <= y * up && (-(d * up)) * MANT_END <= y * up) by (nonlinear_arith)
        requires
            d * MANT_END <= y,
            (-d) * MANT_END <= y,
            up > 0,
    ;
}

/// A quotient times the divisor is near the dividend.
pub proof fn quotient_is_near(a: Real, b: Real, i: int, j: int)
    requires
        fits(a, i),
        fits(b, j),
        b.mant != 0,
        0 <= i,
        0 <= j,
        i + j <= 1_200,
    ensures
        near(value(binary64::quotient(a, b)) * value(b), value(a)),
        fits(binary64::quotient(a, b), i + j + 117),
{
    let r = binary64::quotient(a, b);
    let (va, vb, vr) = (value(a), value(b), value(r));
    if a.mant == 0 {
        assert(a.mant * pow2(64) == 0) by (nonlinear_arith)
            requires
                a.mant == 0,
        ;
        assert(0nat / (b.mant as nat) == 0) by (nonlinear_arith)
            requires
                b.mant > 0,
        ;
        value_of_zero(r);
        value_of_zero(a);
        assert(vr * vb == 0 as real) by (nonlinear_arith)
            requires
                vr == 0 as real,
        ;
    } else {
        quotient_weight(a, b);
        units_are_weight(r);
        units_are_weight(a);
        units_are_weight(b);
        let s = pow2(4_096);
        let (ua, ub, ur) = (a.units(-4_096), b.units(-4_096), r.units(-4_096));
        let (wa, wb, wr) = (weight(a), weight(b), weight(r));
        assert((-wr) * wb == -(wr * wb) && wr * (-wb) == -(wr * wb) && (-wr) * (-wb) == wr * wb)
            by (nonlinear_arith);
        lemma_mul_unary_negation(wa, s as int);
        assert(wa * s >= 0) by (nonlinear_arith)
            requires
                wa >= 0,
        ;
        near_of_ints(ur * ub, ua * s);
        value_times_scale(a);
        value_times_scale(b);
        value_times_scale(r);
        int_product(ur, ub);
        int_product(ua, s as int);
        let sr = s as real;
        assert((vr * vb) * (sr * sr) == (vr * sr) * (vb * sr)) by (nonlinear_arith);
        assert(va * (sr * sr) == (va * sr) * sr) by (nonlinear_arith);
        assert(sr * sr > 0 as real) by (nonlinear_arith)
            requires
                sr > 0 as real,
        ;
        unscaled(vr * vb, va, sr * sr);
    }
}

proof fn units_are_bounded(a: Real, e: int)
    requires
        a.ok(),
        e <= a.exp,
    ensures
        -pow2((53 + a.exp - e) as nat) < a.units(e) < pow2((53 + a.exp - e) as nat),
{
    let p = pow2((a.exp - e) as nat);
    lemma2_to64_rest();
    lemma_pow2_pos((a.exp - e) as nat);
    lemma_pow2_pos((53 + a.exp - e) as nat);
    lemma_pow2_adds(53, (a.exp - e) as nat);
    let m = a.signed();
    assert(-(MANT_END * p) < m * p < MANT_END * p) by (nonlinear_arith)
        requires
            -MANT_END < m < MANT_END,
            p > 0,
    ;
}

/// A sum is near the exact one.
pub proof fn sum_is_near(a: Real, b: Real, i: int)
    requires
        fits(a, i),
        fits(b, i),
        0 <= i <= 1_200,
    ensures
        near(value(binary64::sum(a, b)), value(a) + value(b)),
        fits(binary64::sum(a, b), i + 54),
{
    let r = binary64::sum(a, b);
    if a.mant == 0 {
        value_of_zero(a);
    } else if b.mant == 0 {
        value_of_zero(b);
    } else {
        let (e, h) = if a.exp <= b.exp {
            (a.exp as int, b.exp as int)
        } else {
            (b.exp as int, a.exp as int)
        };
        let t = a.units(e) + b.units(e);
        let n: nat = if t < 0 {
            (-t) as nat
        } else {
            t as nat
        };
        let unit = pow2((e + 4_096) as nat);
        rescaled(a, e);
        rescaled(b, e);
        let y = n * unit;
        lemma_mul_is_distributive_add_other_way(unit as int, a.units(e), b.units(e));
        lemma_mul_unary_negation(t, unit as int);
        let exact = a.units(-4_096) + b.units(-4_096);
        assert(exact == if t < 0 {
            -y
        } else {
            y as int
        });
        if t != 0 {
            units_are_bounded(a, e);
            units_are_bounded(b, e);
            lemma_pow2_unfold((54 + h - e) as nat);
            if a.exp < h {
                lemma_pow2_strictly_increases((53 + a.exp - e) as nat, (53 + h - e) as nat);
            }
            if b.exp < h {
                lemma_pow2_strictly_increases((53 + b.exp - e) as nat, (53 + h - e) as nat);
            }
            bits_at_most(n, (54 + h - e) as nat);
            assert(y == n * (unit * 1));
            rounded_is_near(t < 0, n, e, false, 1, y as int);
            assert(weight(r) * 1 == weight(r));
        }
        units_are_weight(r);
        near_of_ints(r.units(-4_096), exact);
        value_times_scale(a);
        value_times_scale(b);
        value_times_scale(r);
        let (va, vb, sr) = (value(a), value(b), pow2(4_096) as real);
        assert((va + vb) * sr == va * sr + vb * sr) by (nonlinear_arith);
        unscaled(value(r), va + vb, sr);
    }
}

/// Comparing is exact.
pub proof fn below_is_less(a: Real, b: Real)
    requires
        a.ok(),
        b.ok(),
    ensures
        binary64::below(a, b) == (value(a) < value(b)),
{
    let e = if a.exp <= b.exp {
        a.exp as int
    } else {
        b.exp as int
    };
    let unit = pow2((e + 4_096) as nat);
    rescaled(a, e);
    rescaled(b, e);
    lemma_pow2_pos((e + 4_096) as nat);
    let (x, y) = (a.units(e), b.units(e));
    assert((x < y) == (x * unit < y * unit)) by (nonlinear_arith)
        requires
            unit > 0,
    ;
    value_times_scale(a);
    value_times_scale(b);
    let (va, vb, sr) = (value(a), value(b), pow2(4_096) as real);
    assert((va < vb) == (va * sr < vb * sr)) by (nonlinear_arith)
        requires
            sr > 0 as real,
    ;
}

/// The nearest integer is at most one half away.
pub proof fn nearest_is_near(a: Real)
    requires
        a.ok(),
        size(value(a)) <= 4_000_000_000_000_000_000 as real,
    ensures
        size(binary64::nearest(a) as real - value(a)) * (2 as real) <= 1 as real,
{
    let s = pow2(4_096);
    let m = if a.exp >= 0 {
        (a.mant * pow2(a.exp as nat)) as int
    } else {
        ((a.mant + pow2((-a.exp - 1) as nat)) / pow2((-a.exp) as nat) as int) as int
    };
    let w = weight(a);
    lemma_pow2_pos(4_096);
    units_are_weight(a);
    value_times_scale(a);
    assert(2 * (m * s - w) <= s && 2 * (w - m * s) <= s) by {
        if a.exp >= 0 {
            lemma_pow2_adds(a.exp as nat, 4_096);
            lemma_mul_is_associative(a.mant as int, pow2(a.exp as nat) as int, s as int);
        } else {
            let (k, z) = (pow2((-a.exp) as nat) as int, pow2((4_096 + a.exp) as nat) as int);
            let h = pow2((-a.exp - 1) as nat) as int;
            lemma_pow2_pos((-a.exp) as nat);
            lemma_pow2_pos((4_096 + a.exp) as nat);
            lemma_pow2_adds((-a.exp) as nat, (4_096 + a.exp) as nat);
            lemma_pow2_unfold((-a.exp) as nat);
            lemma_fundamental_div_mod(a.mant + h, k);
            lemma_mod_bound(a.mant + h, k);
            let d = k * m - a.mant;
            assert(2 * d <= k && -(2 * d) <= k);
            assert(d * z == m * s - w) by (nonlinear_arith)
                requires
                    d == k * m - a.mant,
                    s == k * z,
                    w == a.mant * z,
            ;
            assert(2 * (d * z) <= k * z && -(2 * (d * z)) <= k * z) by (nonlinear_arith)
                requires
                    2 * d <= k,
                    -(2 * d) <= k,
                    z > 0,
            ;
        }
    }
    let v: int = if a.neg {
        -m
    } else {
        m
    };
    lemma_mul_unary_negation(m, s as int);
    int_product(v, s as int);
    let (x, t, sr) = (v as real, value(a), s as real);
    assert(2 as real * (x * sr - t * sr) <= sr && 2 as real * (t * sr - x * sr) <= sr);
    assert(2 as real * (x - t) <= 1 as real && 2 as real * (t - x) <= 1 as real) by (nonlinear_arith)
        requires
            2 as real * (x * sr - t * sr) <= sr,
            2 as real * (t * sr - x * sr) <= sr,
            sr > 0 as real,
    ;
    assert(-5_000_000_000_000_000_000 < v < 5_000_000_000_000_000_000);
}

/// The negated number stands for the number with the other sign.
pub proof fn negated_is_opposite(a: Real)
    ensures
        value(binary64::negated(a)) == 0 as real - value(a),
{
    let b = binary64::negated(a);
    units_are_weight(a);
    units_are_weight(b);
    value_times_scale(a);
    value_times_scale(b);
    let (v, w, s) = (value(a), value(b), pow2(4_096) as real);
    assert(a.mant == 0 ==> a.mant * pow2((a.exp + 4_096) as nat) == 0) by (nonlinear_arith);
    assert(w == 0 as real - v) by (nonlinear_arith)
        requires
            w * s == 0 as real - v * s,
            s > 0 as real,
    ;
}

/// A rounded root squared is near the number.
proof fn square_of_root(w: int, t: int, s: int, u: int, n: int)
    requires
        s >= MANT_END,
        u > 0,
        t == s * u,
        s * s <= n < (s + 1) * (s + 1),
        (w - t) * MANT_END <= t,
        (t - w) * MANT_END <= t,
    ensures
        (w * w - n * (u * u)) * MANT_END <= 5 * (n * (u * u)),
        (n * (u * u) - w * w) * MANT_END <= 5 * (n * (u * u)),
{
    let m = MANT_END as int;
    let d = w - t;
    let tt = t * t;
    assert(t > 0) by (nonlinear_arith)
        requires
            s >= m,
            m > 0,
            u > 0,
            t == s * u,
    ;
    assert(-t <= d <= t) by (nonlinear_arith)
        requires
            d * m <= t,
            (-d) * m <= t,
            m >= 1,
            t > 0,
    ;
    assert(w * w == tt + d * (2 * t + d)) by (nonlinear_arith)
        requires
            w == t + d,
            tt == t * t,
    ;
    let k = 2 * t + d;
    assert((d * k) * m <= 3 * tt && (-(d * k)) * m <= 3 * tt) by (nonlinear_arith)
        requires
            0 < k <= 3 * t,
            d * m <= t,
            (-d) * m <= t,
            tt == t * t,
            t > 0,
    ;
    let uu = u * u;
    assert(tt == (s * s) * uu) by (nonlinear_arith)
        requires
            tt == t * t,
            t == s * u,
            uu == u * u,
    ;
    let g = n - s * s;
    assert(0 <= g <= 2 * s) by (nonlinear_arith)
        requires
            g == n - s * s,
            s * s <= n < (s + 1) * (s + 1),
    ;
    let nu = n * uu;
    assert(nu == tt + g * uu) by (nonlinear_arith)
        requires
            nu == n * uu,
            g == n - s * s,
            tt == (s * s) * uu,
    ;
    assert(0 <= (g * uu) * m <= 2 * tt) by {
        assert(0 <= g * m <= 2 * (s * s)) by (nonlinear_arith)
            requires
                0 <= g <= 2 * s,
                0 < m <= s,
        ;
        assert(uu > 0) by (nonlinear_arith)
            requires
                u > 0,
                uu == u * u,
        ;
        assert(0 <= (g * m) * uu <= (2 * (s * s)) * uu) by (nonlinear_arith)
            requires
                0 <= g * m <= 2 * (s * s),
                uu > 0,
        ;
        assert((g * uu) * m == (g * m) * uu) by (nonlinear_arith);
        assert((2 * (s * s)) * uu == 2 * ((s * s) * uu)) by (nonlinear_arith);
    }
    let (a, b) = (d * k, g * uu);
    assert((a - b) * m == a * m - b * m) by (nonlinear_arith);
    assert((b - a) * m == b * m - a * m) by (nonlinear_arith);
    assert((-a) * m == -(a * m)) by (nonlinear_arith);
    assert(b >= 0) by (nonlinear_arith)
        requires
            0 <= b * m,
            m > 0,
    ;
}

proof fn root_weight(a: Real)
    requires
        a.ok(),
        a.mant != 0,
        -1_200 <= a.exp <= 1_200,
    ensures
        ({
            let r = binary64::root(a);
            let exact = weight(a) * pow2(4_096);
            &&& !r.neg
            &&& MANT_MIN <= r.mant < MANT_END
            &&& -1_000 <= r.exp <= 1_000
            &&& (weight(r) * weight(r) - exact) * MANT_END <= 5 * exact
            &&& (exact - weight(r) * weight(r)) * MANT_END <= 5 * exact
        }),
{
    let r = binary64::root(a);
    let odd = a.exp % 2 != 0;
    let h: int = if odd {
        55
    } else {
        54
    };
    let p = pow2(h as nat);
    let n = (a.mant * p) as nat;
    let e = (a.exp - h) / 2;
    assert(2 * e == a.exp - h);
    let s = binary64::isqrt(n);
    binary64::isqrt_is_floor(n);
    lemma2_to64_rest();
    assert(a.mant * p >= 0) by (nonlinear_arith);
    assert(n >= MANT_MIN * 0x40_0000_0000_0000 && n < MANT_END * 0x80_0000_0000_0000) by (nonlinear_arith)
        requires
            n == a.mant * p,
            MANT_MIN <= a.mant < MANT_END,
            0x40_0000_0000_0000 <= p <= 0x80_0000_0000_0000,
    ;
    assert(s >= MANT_END) by (nonlinear_arith)
        requires
            n < (s + 1) * (s + 1),
            n >= MANT_MIN * 0x40_0000_0000_0000,
            s >= 0,
    ;
    assert(s < 0x40_0000_0000_0000) by (nonlinear_arith)
        requires
            s * s <= n,
            n < MANT_END * 0x80_0000_0000_0000,
            s >= 0,
    ;
    bits_at_most(s, 54);
    binary64::bits_bracket(s);
    if binary64::bits(s) <= 53 {
        if binary64::bits(s) < 53 {
            lemma_pow2_strictly_increases(binary64::bits(s), 53);
        }
    }
    let u = pow2((e + 4_096) as nat);
    lemma_pow2_pos((e + 4_096) as nat);
    let y = s * u;
    assert(u * 1 == u);
    assert(y <= (s + 1) * u) by (nonlinear_arith)
        requires
            y == s * u,
            u > 0,
    ;
    rounded_is_near(false, s, e, s * s != n, 1, y as int);
    square_of_root(weight(r), y as int, s as int, u as int, n as int);
    lemma_pow2_adds((e + 4_096) as nat, (e + 4_096) as nat);
    lemma_pow2_adds(h as nat, (2 * e + 8_192) as nat);
    lemma_pow2_adds((a.exp + 4_096) as nat, 4_096);
    lemma_mul_is_associative(a.mant as int, p as int, pow2((2 * e + 8_192) as nat) as int);
    lemma_mul_is_associative(
        a.mant as int,
        pow2((a.exp + 4_096) as nat) as int,
        pow2(4_096) as int,
    );
}

/// The square of a rounded root is near the number: off by at most five parts in `2^53`.
pub proof fn root_is_near(a: Real, i: int)
    requires
        fits(a, i),
        0 <= i <= 1_200,
        !a.neg,
    ensures
        ({
            let v = value(binary64::root(a));
            &&& v >= 0 as real
            &&& size(v * v - value(a)) * (9_007_199_254_740_992 as real) <= (5 as real) * value(a)
            &&& value(a) >= 0 as real
        }),
        fits(binary64::root(a), 1_000),
{
    let r = binary64::root(a);
    let (v, va) = (value(r), value(a));
    if a.mant == 0 {
        value_of_zero(r);
        value_of_zero(a);
        assert(v * v == 0 as real) by (nonlinear_arith)
            requires
                v == 0 as real,
        ;
    } else {
        root_weight(a);
        units_are_weight(r);
        units_are_weight(a);
        value_times_scale(r);
        value_times_scale(a);
        let s = pow2(4_096);
        let sr = s as real;
        let (w, wa) = (weight(r), weight(a));
        let exact = wa * s;
        int_product(w, w);
        int_product(wa, s as int);
        let ss = sr * sr;
        assert((v * v) * ss == (v * sr) * (v * sr)) by (nonlinear_arith)
            requires
                ss == sr * sr,
        ;
        assert(va * ss == (va * sr) * sr) by (nonlinear_arith)
            requires
                ss == sr * sr,
        ;
        assert(ss > 0 as real) by (nonlinear_arith)
            requires
                sr > 0 as real,
                ss == sr * sr,
        ;
        assert(v >= 0 as real) by (nonlinear_arith)
            requires
                v * sr >= 0 as real,
                sr > 0 as real,
        ;
        assert(va >= 0 as real) by (nonlinear_arith)
            requires
                va * sr >= 0 as real,
                sr > 0 as real,
        ;
        let d = v * v - va;
        let m = 9_007_199_254_740_992 as real;
        let k = (w * w - exact) as real;
        assert(d * ss == k) by (nonlinear_arith)
            requires
                d == v * v - va,
                (v * v) * ss - va * ss == k,
        ;
        assert(k * m <= (5 as real) * (va * ss));
        assert((0 as real - k) * m <= (5 as real) * (va * ss));
        assert(d * m <= (5 as real) * va) by (nonlinear_arith)
            requires
                (d * ss) * m <= (5 as real) * (va * ss),
                ss > 0 as real,
        ;
        assert((0 as real - d) * m <= (5 as real) * va) by (nonlinear_arith)
            requires
                (0 as real - d * ss) * m <= (5 as real) * (va * ss),
                ss > 0 as real,
        ;
    }
}

} // verus!
