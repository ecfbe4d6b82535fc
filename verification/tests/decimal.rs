//! Decimal numbers against the arithmetic underneath them.
use pulse::decimal::Decimal;
use rust_decimal::Decimal as Plain;

fn samples() -> Vec<(i128, u32)> {
    let max: i128 = 79_228_162_514_264_337_593_543_950_335;
    vec![
        (0, 0),
        (0, 5),
        (1, 0),
        (-1, 0),
        (10, 2),
        (100, 2),
        (-500, 3),
        (30_000, 0),
        (123_456_789, 9),
        (7, 28),
        (-7, 28),
        (max, 0),
        (-max, 0),
        (max, 28),
        (max / 3, 14),
        (1_000_000_000_000, 6),
    ]
}

fn ours(p: (i128, u32)) -> Decimal {
    Decimal::from_i128_with_scale(p.0, p.1)
}

fn theirs(p: (i128, u32)) -> Plain {
    Plain::from_i128_with_scale(p.0, p.1)
}

fn parts(d: Option<Decimal>) -> Option<(i128, u32)> {
    d.map(|d| (d.mantissa(), d.scale()))
}

fn plain_parts(d: Option<Plain>) -> Option<(i128, u32)> {
    d.map(|d| (d.mantissa(), d.scale()))
}

#[test]
fn arithmetic_is_the_outside_arithmetic() {
    for a in samples() {
        for b in samples() {
            let (x, y) = (ours(a), ours(b));
            let (p, q) = (theirs(a), theirs(b));
            assert_eq!(parts(x.checked_add(y)), plain_parts(p.checked_add(q)));
            assert_eq!(parts(x.checked_sub(y)), plain_parts(p.checked_sub(q)));
            assert_eq!(parts(x.checked_mul(y)), plain_parts(p.checked_mul(q)));
            assert_eq!(parts(x.checked_div(y)), plain_parts(p.checked_div(q)));
            assert_eq!(x.lt(&y), p < q);
            assert_eq!(x.le(&y), p <= q);
            assert_eq!(x.equals(&y), p == q);
            assert_eq!(x == y, p == q);
        }
    }
}

#[test]
fn texts_and_normal_forms_are_the_outside_ones() {
    for a in samples() {
        assert_eq!(ours(a).to_string(), theirs(a).to_string());
        let normal = ours(a).normalize();
        let plain = theirs(a).normalize();
        assert_eq!(
            (normal.mantissa(), normal.scale()),
            (plain.mantissa(), plain.scale())
        );
        assert_eq!(normal.to_string(), plain.to_string());
    }
}

#[test]
fn normal_forms_decide_equality() {
    for a in samples() {
        for b in samples() {
            let (x, y) = (ours(a).normalize(), ours(b).normalize());
            assert_eq!(
                ours(a).equals(&ours(b)),
                (x.mantissa(), x.scale()) == (y.mantissa(), y.scale())
            );
        }
    }
}

#[test]
fn parts_out_of_range_are_refused() {
    assert!(Decimal::try_from_i128_with_scale(1, 29).is_none());
    assert!(Decimal::try_from_i128_with_scale(i128::MAX, 0).is_none());
    assert_eq!(
        Decimal::try_from_i128_with_scale(-25, 1).map(|d| d.to_string()),
        Some("-2.5".to_owned())
    );
}

#[test]
fn small_constructors() {
    assert_eq!(Decimal::zero().to_string(), "0");
    assert_eq!(Decimal::one().to_string(), "1");
    assert!(Decimal::new(0, 3).is_zero());
    assert!(!Decimal::one().is_zero());
    assert_eq!(Decimal::from_u64(u64::MAX).to_string(), "18446744073709551615");
    assert_eq!(Decimal::from_usize(12).to_string(), "12");
    assert_eq!(Decimal::new(25, 1).negated().to_string(), "-2.5");
    assert_eq!(Decimal::default(), Decimal::zero());
}

#[test]
fn quotients_that_come_out_even_are_exact() {
    let largest: i128 = (1 << 96) - 1;
    for divisor in [1, 3, -7, 4_294_967_295, 4_294_967_296, 79_228_162_514_264, 1 << 64] {
        for factor in [0, 1, -2, 10, 999_999_937, 4_294_967_297] {
            let dividend: i128 = divisor * factor;
            if dividend.abs() > largest {
                continue;
            }
            for (a, b) in [(0, 0), (5, 2), (28, 0), (28, 28), (19, 7)] {
                let quotient = ours((dividend, a)).checked_div(ours((divisor, b)));
                let expected = ours((factor, a - b)).normalize();
                assert_eq!(
                    parts(quotient.map(|q| q.normalize())),
                    parts(Some(expected)),
                    "{dividend} / {divisor} at {a}, {b}"
                );
            }
        }
    }
    // A dividend of a smaller scale: the quotient is scaled up, where it fits.
    let up = ours((21, 0)).checked_div(ours((7, 3))).expect("fits");
    assert_eq!(up.to_string(), "3000");
    assert!(ours((largest, 0)).checked_div(ours((1, 1))).is_none());
    // Up to nine more digits.
    for (a, b, text) in [
        ((1, 0), (2, 0), "0.5"),
        ((1, 0), (8, 0), "0.125"),
        ((-3, 2), (4, 1), "-0.075"),
        ((1, 0), (1_000_000_000, 0), "0.000000001"),
        ((18_446_744_073_709_551_615, 19), (2, 0), "0.92233720368547758075"),
    ] {
        let quotient = ours(a).checked_div(ours(b)).expect("fits");
        assert_eq!(quotient.normalize().to_string(), text);
    }
}

#[test]
fn sums_of_gains_are_gains() {
    let largest: i128 = (1 << 96) - 1;
    let values = [(0, 0), (0, 28), (1, 0), (1, 28), (largest, 0), (largest, 28), (5, 14)];
    for a in values {
        for b in values {
            if let Some(sum) = ours(a).checked_add(ours(b)) {
                assert_eq!(sum.mantissa() > 0, a.0 + b.0 > 0, "{a:?} + {b:?}");
            }
        }
    }
}

#[test]
fn sums_and_differences_have_no_more_digits_than_their_operands() {
    for a in samples() {
        for b in samples() {
            let most = a.1.max(b.1);
            if let Some(sum) = ours(a).checked_add(ours(b)) {
                assert!(sum.scale() <= most, "{a:?} + {b:?}");
            }
            if let Some(difference) = ours(a).checked_sub(ours(b)) {
                assert!(difference.scale() <= most, "{a:?} - {b:?}");
            }
        }
    }
}
