use computor::coefficient::Coefficient;
use computor::parser::{parse, split_signed_terms};
use computor::polynomial::Polynomial;
use computor::solver::{Answer, Kind};
use computor::syntax::SyntaxError;
use computor::term::Term;

fn coef(x: f64) -> Coefficient {
    Coefficient::from_bits(x.to_bits())
}

fn value(c: Coefficient) -> f64 {
    f64::from_bits(c.bits)
}

fn number(s: String) -> Option<Coefficient> {
    s.parse::<f64>().ok().map(coef)
}

fn sum(a: Coefficient, b: Coefficient) -> Coefficient {
    coef(value(a) + value(b))
}

fn product(a: Coefficient, b: Coefficient) -> Coefficient {
    coef(value(a) * value(b))
}

fn quotient(a: Coefficient, b: Coefficient) -> Coefficient {
    coef(value(a) / value(b))
}

fn root(a: Coefficient) -> Coefficient {
    assert!(value(a) > 0.0);
    coef(value(a).sqrt())
}

fn show(c: Coefficient) -> String {
    format!("{}", value(c))
}

fn term(degree: u8, coefficient: f64) -> Term {
    Term { degree, coefficient: coef(coefficient) }
}

#[test]
fn equation_with_two_real_roots() {
    let mut p = parse("5 * X^0 + 4 * X^1 = X^2", &number, &sum).unwrap();
    assert_eq!(p.terms, vec![term(0, 5.0), term(1, 4.0), term(2, -1.0)]);
    assert_eq!(p.get_degree(), 2);
    assert_eq!(p.print_reduced_form(&show), "5 * X^0 + 4 * X^1 - 1 * X^2 = 0");
    assert_eq!(p.print_free_form(&show), "5 + 4 * X - X^2 = 0");
    assert_eq!(p.kind(), Kind::Quadratic);
    assert_eq!(
        p.try_solve(&sum, &product, &quotient, &root),
        Answer::Two {
            a: coef(-1.0),
            b: coef(4.0),
            c: coef(5.0),
            discriminant: coef(36.0),
            first: coef(5.0),
            second: coef(-1.0),
        }
    );
}

#[test]
fn equation_with_a_repeated_root() {
    let p = parse("X^2 = 0", &number, &sum).unwrap();
    assert_eq!(p.get_degree(), 2);
    match p.try_solve(&sum, &product, &quotient, &root) {
        Answer::Repeated { a, b, c, discriminant, root } => {
            assert_eq!(value(a), 1.0);
            assert_eq!(value(b), 0.0);
            assert_eq!(value(c), 0.0);
            assert_eq!(value(discriminant), 0.0);
            assert_eq!(value(root), 0.0);
        }
        other => panic!("not a repeated root: {:?}", other),
    }
}

#[test]
fn equation_with_complex_roots() {
    let p = parse("X^2 = -1", &number, &sum).unwrap();
    assert_eq!(p.get_degree(), 2);
    match p.try_solve(&sum, &product, &quotient, &root) {
        Answer::Conjugate { a, b, c, discriminant, re, im } => {
            assert_eq!(value(a), 1.0);
            assert_eq!(value(b), 0.0);
            assert_eq!(value(c), 1.0);
            assert_eq!(value(discriminant), -4.0);
            assert_eq!(value(re), 0.0);
            assert_eq!(value(im), 1.0);
        }
        other => panic!("not a conjugate pair: {:?}", other),
    }
}

#[test]
fn equal_constants_reduce_to_an_identity() {
    let mut lhs = Polynomial::new();
    lhs.push_term(term(0, 5.0), &sum);
    let mut rhs = Polynomial::new();
    rhs.push_term(term(0, 5.0), &sum);
    let mut r = lhs.sub(rhs, &sum);
    assert_eq!(r.get_degree(), 0);
    assert_eq!(r.try_solve(&sum, &product, &quotient, &root), Answer::Identity);
    assert_eq!(r.terms, vec![term(0, 0.0)]);
    assert_eq!(r.print_reduced_form(&show), "0 * X^0 = 0");
    assert_eq!(r.print_free_form(&show), "0 = 0");
    assert_eq!(parse("5 = 5", &number, &sum), Err(SyntaxError::NoUnknown));
}

#[test]
fn doubled_operator_in_an_equation() {
    assert_eq!(parse("5 * * X^2 = 0", &number, &sum), Err(SyntaxError::ConsecutiveOperator));
    assert_eq!(parse("5 ** X^2 = 0", &number, &sum), Err(SyntaxError::ConsecutiveOperator));
    let p = parse("5 * X^2 = 0", &number, &sum).unwrap();
    assert_eq!(p.terms, vec![term(0, -0.0), term(2, 5.0)]);
}

#[test]
fn equation_structure_faults() {
    assert_eq!(parse("", &number, &sum), Err(SyntaxError::EmptyInput));
    assert_eq!(parse("   ", &number, &sum), Err(SyntaxError::EmptyInput));
    assert_eq!(parse("5 = 4", &number, &sum), Err(SyntaxError::NoUnknown));
    assert_eq!(parse("X^2 + 1", &number, &sum), Err(SyntaxError::MissingEquals));
    assert_eq!(parse("X = 1 = 2", &number, &sum), Err(SyntaxError::TooManyEquals));
    assert_eq!(parse("X = ", &number, &sum), Err(SyntaxError::InvalidStructure));
    assert_eq!(parse(" = X", &number, &sum), Err(SyntaxError::InvalidStructure));
    assert_eq!(parse("X + + 1 = 0", &number, &sum), Err(SyntaxError::InvalidStructure));
}

#[test]
fn left_faults_come_first() {
    assert_eq!(
        parse("3 * Y = 2 ** X", &number, &sum),
        Err(SyntaxError::MissingPrefix)
    );
}

#[test]
fn lower_case_unknown_is_accepted() {
    let p = parse("2 * x^1 - 4 = 0", &number, &sum).unwrap();
    assert_eq!(p.terms, vec![term(0, -4.0), term(1, 2.0)]);
    assert_eq!(
        p.try_solve(&sum, &product, &quotient, &root),
        Answer::One { a: coef(2.0), b: coef(-4.0), root: coef(2.0) }
    );
}

#[test]
fn signs_are_attached_to_their_terms() {
    let p = parse("-X^2 - 3 * X - -2 = - 4", &number, &sum);
    assert_eq!(p, Err(SyntaxError::InvalidCoefficient("-".to_string())));
    let p = parse("-X^2 - 3 * X + 2 = - 4", &number, &sum).unwrap();
    assert_eq!(p.terms, vec![term(0, 6.0), term(1, -3.0), term(2, -1.0)]);
}

#[test]
fn like_terms_across_the_sides_are_merged() {
    let mut p = parse("8 * X^0 - 6 * X^1 + 0 * X^2 - 5.6 * X^3 = 3 * X^0", &number, &sum).unwrap();
    assert_eq!(p.get_degree(), 3);
    assert_eq!(p.print_reduced_form(&show), "5 * X^0 - 6 * X^1 - 5.6 * X^3 = 0");
    assert_eq!(p.try_solve(&sum, &product, &quotient, &root), Answer::TooHigh);
}

#[test]
fn signed_terms_of_a_side() {
    assert_eq!(split_signed_terms("5 * X^0 + 4 * X^1 "), vec!["5 * X^0 ", " 4 * X^1 "]);
    assert_eq!(split_signed_terms(" -1"), vec![" -1"]);
    assert_eq!(split_signed_terms("3 - 2 * X"), vec!["3 ", " -2 * X"]);
    assert_eq!(split_signed_terms("-X^2 - X"), vec![" -X^2 ", " -X"]);
    assert_eq!(split_signed_terms(""), vec![""]);
    assert_eq!(split_signed_terms("1 + + 2"), vec!["1 ", " ", " 2"]);
    assert_eq!(split_signed_terms("+1"), vec!["1"]);
    assert_eq!(split_signed_terms("-  1"), vec![" - 1"]);
}
