//! Binary64 arithmetic against the machine's.

use ecad_core::binary64::Real;

fn exact(v: f64) -> Real {
    if v == 0.0 {
        return Real { neg: false, mant: 0, exp: 0 };
    }
    let bits = v.abs().to_bits();
    let frac = bits & ((1 << 52) - 1);
    let biased = (bits >> 52) as i32;
    Real { neg: v < 0.0, mant: frac | (1 << 52), exp: biased - 1075 }
}

/// Numbers of many sizes and signs, the same on every run.
fn samples() -> Vec<f64> {
    let mut out = vec![0.0, 1.0, -1.0, 0.5, 1.5, 2.5, 3.0, 1e9, -1e9, 1e15, 0.1, 4.503599627370497e15];
    let mut x: u64 = 0x2545_f491_4f6c_dd1d;
    for _ in 0..60 {
        x ^= x << 13;
        x ^= x >> 7;
        x ^= x << 17;
        let m = (x >> 12) as f64;
        let e = ((x & 0x3f) as i32) - 40;
        let v = m * 2f64.powi(e);
        out.push(if x & 0x800 == 0 { v } else { -v });
    }
    out
}

#[test]
fn products_sums_and_differences_round_as_the_machine_does() {
    for a in samples() {
        for b in samples() {
            assert_eq!(exact(a).times(exact(b)), exact(a * b), "{a} * {b}");
            assert_eq!(exact(a).plus(exact(b)), exact(a + b), "{a} + {b}");
            assert_eq!(exact(a).less(exact(b)), exact(a - b), "{a} - {b}");
            assert_eq!(exact(a).is_below(exact(b)), a < b, "{a} < {b}");
            if b != 0.0 {
                assert_eq!(exact(a).over(exact(b)), exact(a / b), "{a} / {b}");
            }
        }
    }
}

#[test]
fn roots_round_as_the_machine_does() {
    for a in samples() {
        let v = a.abs();
        assert_eq!(exact(v).sqrt(), exact(v.sqrt()), "sqrt {v}");
    }
    assert_eq!(exact(2.0).sqrt(), exact(2f64.sqrt()));
}

#[test]
fn integers_convert_and_round_as_the_machine_does() {
    for n in [0, 1, -1, 9_007_199_254_740_993, -9_007_199_254_740_995, i64::MAX, i64::MIN] {
        assert_eq!(Real::from_int(n as i128), exact(n as f64), "{n}");
    }
    for a in samples() {
        assert_eq!(exact(a).round(), a.round() as i64, "round {a}");
    }
    assert_eq!(exact(-2.5).round(), -3);
    assert_eq!(exact(1e300).round(), i64::MAX);
}
