use computor::coefficient::Coefficient;
use computor::format::fract_or_float;
use computor::fraction::Fraction;

fn coef(x: f64) -> Coefficient {
    Coefficient::from_bits(x.to_bits())
}

fn value(c: Coefficient) -> f64 {
    f64::from_bits(c.bits)
}

fn nearest(x: Coefficient, den: u8) -> Option<i64> {
    let x = value(x);
    let num = (x * den as f64).round();
    if (x - num / den as f64).abs() < 1e-9 {
        Some(num as i64)
    } else {
        None
    }
}

fn fixed(x: Coefficient) -> String {
    format!("{:.6}", value(x))
}

fn never(_: Coefficient, _: u8) -> Option<i64> {
    None
}

fn only_at_hundred(_: Coefficient, den: u8) -> Option<i64> {
    if den == 100 {
        Some(7)
    } else {
        None
    }
}

fn text(x: f64) -> String {
    fract_or_float(coef(x), &nearest, &fixed)
}

#[test]
fn integers_are_written_bare() {
    assert_eq!(text(3.0), "3");
    assert_eq!(text(-5.0), "-5");
    assert_eq!(text(0.0), "0");
    assert_eq!(text(-0.0), "0");
}

#[test]
fn small_fractions_are_written_exactly() {
    assert_eq!(text(0.5), "1/2");
    assert_eq!(text(-0.75), "-3/4");
    assert_eq!(text(1.0 / 3.0), "1/3");
    assert_eq!(text(-7.0 / 100.0), "-7/100");
    assert_eq!(text(2.5), "5/2");
}

#[test]
fn other_numbers_are_written_with_six_decimals() {
    assert_eq!(text(2.0f64.sqrt()), "1.414214");
    assert_eq!(text(1.0 / 101.0), "0.009901");
    assert_eq!(text(-std::f64::consts::PI), "-3.141593");
}

#[test]
fn the_smallest_denominator_is_taken() {
    assert_eq!(fract_or_float(coef(1.0), &only_at_hundred, &fixed), "7/100");
    assert_eq!(fract_or_float(coef(1.25), &never, &fixed), "1.250000");
}

#[test]
fn every_fraction_up_to_a_hundred_is_reproduced() {
    for d in 1..=100i64 {
        for n in -30..=30i64 {
            let expected = Fraction::new(n, d).to_text();
            assert_eq!(text(n as f64 / d as f64), expected);
        }
    }
}
