use computor::complex::Complex;
use computor::fraction::{gcd, Fraction};

#[test]
fn gcd_values() {
    assert_eq!(gcd(12, 18), 6);
    assert_eq!(gcd(-12, 18), 6);
    assert_eq!(gcd(12, -18), 6);
    assert_eq!(gcd(0, 5), 5);
    assert_eq!(gcd(5, 0), 5);
    assert_eq!(gcd(0, 0), 0);
    assert_eq!(gcd(17, 13), 1);
    assert_eq!(gcd(i64::MAX, i64::MAX), i64::MAX);
}

#[test]
fn fractions_are_reduced() {
    assert_eq!(Fraction::new(6, 4), Fraction { num: 3, den: 2 });
    assert_eq!(Fraction::new(6, -4), Fraction { num: -3, den: 2 });
    assert_eq!(Fraction::new(-6, -4), Fraction { num: 3, den: 2 });
    assert_eq!(Fraction::new(-6, 4), Fraction { num: -3, den: 2 });
    assert_eq!(Fraction::new(0, -7), Fraction { num: 0, den: 1 });
    assert_eq!(Fraction::new(10, 5), Fraction { num: 2, den: 1 });
}

#[test]
fn fraction_text() {
    assert_eq!(Fraction::new(50, 100).to_text(), "1/2");
    assert_eq!(Fraction::new(-7, 3).to_text(), "-7/3");
    assert_eq!(Fraction::new(300, 100).to_text(), "3");
    assert_eq!(Fraction::new(-5, 1).to_text(), "-5");
    assert_eq!(Fraction { num: 1, den: 0 }.to_text(), "NaN");
    assert_eq!(Fraction { num: 1205, den: 1000 }.to_text(), "1205/1000");
}

#[test]
fn every_small_fraction_is_written_in_lowest_terms() {
    for d in 1..=100i64 {
        for n in -50..=50i64 {
            let text = Fraction::new(n, d).to_text();
            let g = gcd(n, d);
            let expected = if n % d == 0 {
                format!("{}", n / d)
            } else {
                format!("{}/{}", n / g, d / g)
            };
            assert_eq!(text, expected);
        }
    }
}

#[test]
fn complex_text() {
    assert_eq!(Complex { re: 3i64, im: 0 }.to_text(), "3");
    assert_eq!(Complex { re: 0i64, im: 2 }.to_text(), "2i");
    assert_eq!(Complex { re: 0i64, im: -2 }.to_text(), "-2i");
    assert_eq!(Complex { re: 1i64, im: 2 }.to_text(), "1 + 2i");
    assert_eq!(Complex { re: -1i64, im: -20 }.to_text(), "-1 - 20i");
    assert_eq!(
        Complex { re: 1i64, im: i64::MIN }.to_text(),
        "1 - 9223372036854775808i"
    );
}
