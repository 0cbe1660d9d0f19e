use lenia::fixed::{clamp_unit, exp_neg, isqrt, sdiv, SCALE};

#[test]
fn isqrt_exact_values() {
    assert_eq!(isqrt(0), 0);
    assert_eq!(isqrt(1), 1);
    assert_eq!(isqrt(3), 1);
    assert_eq!(isqrt(4), 2);
    assert_eq!(isqrt(15), 3);
    assert_eq!(isqrt(16), 4);
    assert_eq!(isqrt(999_999), 999);
    assert_eq!(isqrt(2_000_000_000_000), 1_414_213);
    assert_eq!(isqrt(i64::MAX), 3_037_000_499);
}

#[test]
fn isqrt_brackets_its_argument() {
    let mut n: i64 = 1;
    while n < 1_000_000_000_000 {
        let r = isqrt(n);
        assert!(r * r <= n && n < (r + 1) * (r + 1), "isqrt({}) = {}", n, r);
        n = n * 3 + 7;
    }
}

#[test]
fn exp_neg_exact_values() {
    // e^0 = 1.
    assert_eq!(exp_neg(0), SCALE);
    // e^-1 in fixed point.
    assert_eq!(exp_neg(SCALE), 367_879);
    // e^-2 decays once more: 367879 * 367879 / 1000000.
    assert_eq!(exp_neg(2 * SCALE), 135_334);
    // Twenty whole units flush to zero.
    assert_eq!(exp_neg(20 * SCALE), 0);
    assert_eq!(exp_neg(1_000_000_000), 0);
}

#[test]
fn exp_neg_is_monotone_decreasing_on_samples() {
    let mut prev = exp_neg(0);
    for k in 1..40i64 {
        let y = exp_neg(k * 250_000);
        assert!(y <= prev, "exp_neg rose at {}", k);
        assert!(0 <= y && y <= SCALE);
        prev = y;
    }
}

#[test]
fn sdiv_rounds_toward_zero() {
    assert_eq!(sdiv(7, 2), 3);
    assert_eq!(sdiv(-7, 2), -3);
    assert_eq!(sdiv(6, 3), 2);
    assert_eq!(sdiv(-6, 3), -2);
    assert_eq!(sdiv(0, 5), 0);
}

#[test]
fn clamp_unit_pins_the_interval() {
    assert_eq!(clamp_unit(-5), 0);
    assert_eq!(clamp_unit(0), 0);
    assert_eq!(clamp_unit(123), 123);
    assert_eq!(clamp_unit(SCALE), SCALE);
    assert_eq!(clamp_unit(SCALE + 1), SCALE);
}
