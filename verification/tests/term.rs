use computor::coefficient::{Coefficient, Sign};
use computor::syntax::SyntaxError;
use computor::term::{Term, TermText};

fn coef(x: f64) -> Coefficient {
    Coefficient::from_bits(x.to_bits())
}

fn value(c: Coefficient) -> f64 {
    f64::from_bits(c.bits)
}

fn number(s: String) -> Option<Coefficient> {
    s.parse::<f64>().ok().map(coef)
}

fn show(c: Coefficient) -> String {
    format!("{}", value(c))
}

#[test]
fn parses_basic_term() {
    let term = Term::parse("3 * X^2", &number).unwrap();
    assert_eq!(value(term.coefficient), 3.0);
    assert_eq!(term.degree, 2);
}

#[test]
fn parses_implicit_coefficient() {
    let term = Term::parse("X^2", &number).unwrap();
    assert_eq!(value(term.coefficient), 1.0);
    assert_eq!(term.degree, 2);
}

#[test]
fn parses_number_only() {
    let term = Term::parse("42", &number).unwrap();
    assert_eq!(value(term.coefficient), 42.0);
    assert_eq!(term.degree, 0);
}

#[test]
fn rejects_invalid_term() {
    assert!(Term::parse("5*", &number).is_err());
    assert!(Term::parse("*x^2", &number).is_err());
    assert!(Term::parse("x^^2", &number).is_err());
    assert!(Term::parse("abc", &number).is_err());
}

#[test]
fn rejects_nan_inf() {
    assert!(Term::parse("inf*X^2", &number).is_err());
    assert!(Term::parse("NaN*X^2", &number).is_err());
}

#[test]
fn full_and_free_form_output() {
    let term = Term { coefficient: coef(-1.0), degree: 1 };
    assert_eq!(term.to_full_form(&show), "- 1 * X^1");
    assert_eq!(term.to_free_form(&show), "- X");

    let term = Term { coefficient: coef(2.0), degree: 3 };
    assert_eq!(term.to_full_form(&show), "2 * X^3");
    assert_eq!(term.to_free_form(&show), "2 * X^3");
}

#[test]
fn stray_operator_at_either_end() {
    assert_eq!(Term::parse("*X^2", &number), Err(SyntaxError::StrayOperator));
    assert_eq!(Term::parse("5*", &number), Err(SyntaxError::StrayOperator));
    assert_eq!(Term::parse("\u{2217}3", &number), Err(SyntaxError::StrayOperator));
    assert_eq!(Term::parse("3\u{2731}", &number), Err(SyntaxError::StrayOperator));
    assert_eq!(Term::parse("3\u{204E}", &number), Err(SyntaxError::StrayOperator));
}

#[test]
fn consecutive_operators() {
    assert_eq!(Term::parse("5 ** X^2", &number), Err(SyntaxError::ConsecutiveOperator));
    assert_eq!(Term::parse("5**X^2", &number), Err(SyntaxError::ConsecutiveOperator));
    assert_eq!(Term::parse("5 * * X^2", &number), Err(SyntaxError::ConsecutiveOperator));
    assert_eq!(Term::parse("5 *\t * X^2", &number), Err(SyntaxError::ConsecutiveOperator));
    assert_eq!(Term::parse("1 * 2 * X^2", &number), Err(SyntaxError::InvalidStructure));
}

#[test]
fn blank_fragments_are_dropped() {
    let term = Term::parse("5 \u{2217} \u{2731} X^2", &number).unwrap();
    assert_eq!(value(term.coefficient), 5.0);
    assert_eq!(term.degree, 2);
    let term = Term::parse("5 * ", &number).unwrap();
    assert_eq!(value(term.coefficient), 5.0);
    assert_eq!(term.degree, 0);
}

#[test]
fn look_alike_operators_split_a_term() {
    for text in ["3 \u{2217} X^2", "3 \u{2731} X^2", "3 \u{204E} X^2"] {
        let term = Term::parse(text, &number).unwrap();
        assert_eq!(value(term.coefficient), 3.0);
        assert_eq!(term.degree, 2);
    }
}

#[test]
fn wrong_fragment_counts() {
    assert_eq!(Term::parse("", &number), Err(SyntaxError::InvalidStructure));
    assert_eq!(Term::parse("   ", &number), Err(SyntaxError::InvalidStructure));
    assert_eq!(Term::parse("1 * 2 * X^2", &number), Err(SyntaxError::InvalidStructure));
    assert_eq!(Term::parse("1 * 2 * 3 * X^2", &number), Err(SyntaxError::InvalidStructure));
}

#[test]
fn missing_prefix() {
    assert_eq!(Term::parse("3 * Y^2", &number), Err(SyntaxError::MissingPrefix));
    assert_eq!(Term::parse("3 * 2", &number), Err(SyntaxError::MissingPrefix));
    assert_eq!(Term::parse("x^2", &number), Err(SyntaxError::MissingPrefix));
    assert_eq!(Term::parse("3X", &number), Err(SyntaxError::MissingPrefix));
}

#[test]
fn coefficient_length_guard() {
    assert_eq!(Term::parse("1234567890123456 * X^1", &number), Err(SyntaxError::TooLong));
    let term = Term::parse("123456789012345 * X^1", &number).unwrap();
    assert_eq!(value(term.coefficient), 123456789012345.0);
    assert_eq!(Term::parse("1234567890123456", &number), Err(SyntaxError::TooLong));
}

#[test]
fn prefix_is_checked_before_length() {
    assert_eq!(Term::parse("1234567890123456 * Y", &number), Err(SyntaxError::MissingPrefix));
}

#[test]
fn invalid_coefficient_names_the_text() {
    assert_eq!(
        Term::parse("abc", &number),
        Err(SyntaxError::InvalidCoefficient("abc".to_string()))
    );
    assert_eq!(
        Term::parse("inf * X^2", &number),
        Err(SyntaxError::InvalidCoefficient("inf".to_string()))
    );
    assert_eq!(
        Term::parse("1e999 * X^2", &number),
        Err(SyntaxError::InvalidCoefficient("1e999".to_string()))
    );
    assert_eq!(
        Term::parse("3 4 * X^2", &number),
        Err(SyntaxError::InvalidCoefficient("3 4".to_string()))
    );
}

#[test]
fn coefficient_fault_comes_before_degree_fault() {
    assert_eq!(
        Term::parse("abc * X^z", &number),
        Err(SyntaxError::InvalidCoefficient("abc".to_string()))
    );
}

#[test]
fn invalid_degree_names_the_text() {
    assert_eq!(Term::parse("3 * X^", &number), Err(SyntaxError::InvalidDegree("".to_string())));
    assert_eq!(
        Term::parse("3 * X^256", &number),
        Err(SyntaxError::InvalidDegree("256".to_string()))
    );
    assert_eq!(
        Term::parse("3 * X^-1", &number),
        Err(SyntaxError::InvalidDegree("-1".to_string()))
    );
    assert_eq!(
        Term::parse("3 * X^2a", &number),
        Err(SyntaxError::InvalidDegree("2a".to_string()))
    );
    assert_eq!(
        Term::parse("x^^2".to_uppercase().as_str(), &number),
        Err(SyntaxError::InvalidDegree("^2".to_string()))
    );
    assert_eq!(
        Term::parse("3 * X^99999999999999999999999", &number),
        Err(SyntaxError::InvalidDegree("99999999999999999999999".to_string()))
    );
}

#[test]
fn degree_bounds() {
    assert_eq!(Term::parse("3 * X^255", &number).unwrap().degree, 255);
    assert_eq!(Term::parse("3 * X^0", &number).unwrap().degree, 0);
    assert_eq!(Term::parse("3 * X^007", &number).unwrap().degree, 7);
    assert_eq!(Term::parse("3 * X^+7", &number).unwrap().degree, 7);
}

#[test]
fn bare_unknown_has_degree_one() {
    let term = Term::parse("X", &number).unwrap();
    assert_eq!(value(term.coefficient), 1.0);
    assert_eq!(term.degree, 1);
    let term = Term::parse("4 * X", &number).unwrap();
    assert_eq!(value(term.coefficient), 4.0);
    assert_eq!(term.degree, 1);
}

#[test]
fn negative_unknown_has_coefficient_minus_one() {
    let term = Term::parse(" -X^2 ", &number).unwrap();
    assert_eq!(value(term.coefficient), -1.0);
    assert_eq!(term.degree, 2);
    let term = Term::parse("-X", &number).unwrap();
    assert_eq!(value(term.coefficient), -1.0);
    assert_eq!(term.degree, 1);
}

#[test]
fn negative_constant() {
    let term = Term::parse(" -1", &number).unwrap();
    assert_eq!(value(term.coefficient), -1.0);
    assert_eq!(term.degree, 0);
}

#[test]
fn term_round_trips_through_its_text() {
    for (c, d) in [(3.5f64, 0u8), (-2.25, 1), (1e10, 17), (0.0, 255), (-0.125, 2)] {
        let text = format!("{} * X^{}", c, d);
        let term = Term::parse(&text, &number).unwrap();
        assert_eq!(value(term.coefficient), c);
        assert_eq!(term.degree, d);
    }
}

#[test]
fn scan_gives_the_two_texts() {
    assert_eq!(
        Term::scan(" 3.5 * X^12 "),
        Ok(TermText { coefficient: "3.5".to_string(), degree: "12".to_string() })
    );
    assert_eq!(
        Term::scan("-X"),
        Ok(TermText { coefficient: "-1".to_string(), degree: "1".to_string() })
    );
    assert_eq!(
        Term::scan("7"),
        Ok(TermText { coefficient: "7".to_string(), degree: "0".to_string() })
    );
}

#[test]
fn finish_rejects_what_was_not_read() {
    let text = TermText { coefficient: "q".to_string(), degree: "2".to_string() };
    assert_eq!(
        Term::finish(text.clone(), None),
        Err(SyntaxError::InvalidCoefficient("q".to_string()))
    );
    assert_eq!(
        Term::finish(text.clone(), Some(coef(f64::INFINITY))),
        Err(SyntaxError::InvalidCoefficient("q".to_string()))
    );
    assert_eq!(
        Term::finish(text, Some(coef(2.0))),
        Ok(Term { degree: 2, coefficient: coef(2.0) })
    );
}

#[test]
fn full_form_signs() {
    let t = Term { coefficient: coef(-2.5), degree: 0 };
    assert_eq!(t.to_full_form(&show), "-2.5 * X^0");
    let t = Term { coefficient: coef(0.0), degree: 4 };
    assert_eq!(t.to_full_form(&show), "0 * X^4");
    let t = Term { coefficient: coef(-7.0), degree: 123 };
    assert_eq!(t.to_full_form(&show), "- 7 * X^123");
}

#[test]
fn free_form_cases() {
    assert_eq!(Term { coefficient: coef(-5.0), degree: 0 }.to_free_form(&show), "-5");
    assert_eq!(Term { coefficient: coef(1.0), degree: 1 }.to_free_form(&show), "X");
    assert_eq!(Term { coefficient: coef(1.0), degree: 2 }.to_free_form(&show), "X^2");
    assert_eq!(Term { coefficient: coef(-1.0), degree: 10 }.to_free_form(&show), "- X^10");
    assert_eq!(Term { coefficient: coef(-3.0), degree: 1 }.to_free_form(&show), "- 3 * X");
    assert_eq!(Term { coefficient: coef(4.0), degree: 1 }.to_free_form(&show), "4 * X");
}

#[test]
fn coefficient_classes() {
    assert_eq!(coef(0.0).classify(), Sign::Zero);
    assert_eq!(coef(-0.0).classify(), Sign::Zero);
    assert_eq!(coef(1e-320).classify(), Sign::Positive);
    assert_eq!(coef(-3.0).classify(), Sign::Negative);
    assert_eq!(coef(f64::NEG_INFINITY).classify(), Sign::Negative);
    assert_eq!(coef(f64::NAN).classify(), Sign::Unordered);
    assert!(coef(0.0).zero_valued() && coef(-0.0).zero_valued() && !coef(0.5).zero_valued());
    assert!(coef(f64::MAX).finite() && !coef(f64::INFINITY).finite() && !coef(f64::NAN).finite());
    assert!(coef(1.0).unit() && !coef(-1.0).unit() && coef(-1.0).minus_unit());
    assert_eq!(Coefficient::zero(), coef(0.0));
    for x in [0.0f64, -0.0, 2.5, -7.0, f64::INFINITY, 1e-310] {
        assert_eq!(coef(x).negate(), coef(-x));
    }
}

#[test]
fn messages() {
    assert_eq!(
        SyntaxError::StrayOperator.message(),
        "syntax: stray '*' at start or end of term!"
    );
    assert_eq!(
        SyntaxError::InvalidDegree("2a".to_string()).message(),
        "invalid degree '2a'"
    );
    assert_eq!(
        SyntaxError::InvalidCoefficient("abc".to_string()).message(),
        "invalid coefficient 'abc'"
    );
}
