use computor::coefficient::Coefficient;
use computor::polynomial::Polynomial;
use computor::solver::{Answer, Kind, Roots};
use computor::term::Term;

fn coef(x: f64) -> Coefficient {
    Coefficient::from_bits(x.to_bits())
}

fn value(c: Coefficient) -> f64 {
    f64::from_bits(c.bits)
}

fn sum(a: Coefficient, b: Coefficient) -> Coefficient {
    coef(value(a) + value(b))
}

fn product(a: Coefficient, b: Coefficient) -> Coefficient {
    coef(value(a) * value(b))
}

fn quotient(a: Coefficient, b: Coefficient) -> Coefficient {
    coef(value(a) / value(b))
}

fn root(a: Coefficient) -> Coefficient {
    assert!(value(a) > 0.0);
    coef(value(a).sqrt())
}

fn show(c: Coefficient) -> String {
    format!("{}", value(c))
}

fn term(degree: u8, coefficient: f64) -> Term {
    Term { degree, coefficient: coef(coefficient) }
}

#[test]
fn combines_like_terms() {
    let mut poly = Polynomial::new();
    poly.push_term(Term { degree: 2, coefficient: coef(3.0) }, &sum);
    poly.push_term(Term { degree: 2, coefficient: coef(2.0) }, &sum);
    assert_eq!(poly.terms.len(), 1);
    assert_eq!(value(poly.terms[0].coefficient), 5.0);
}

#[test]
fn calculates_degree() {
    let mut poly = Polynomial::new();
    poly.push_term(Term { degree: 1, coefficient: coef(0.0) }, &sum);
    poly.push_term(Term { degree: 3, coefficient: coef(7.0) }, &sum);
    poly.push_term(Term { degree: 2, coefficient: coef(-2.0) }, &sum);
    assert_eq!(poly.get_degree(), 3);
}

#[test]
fn subtraction_of_polynomials() {
    let lhs = Polynomial {
        terms: vec![
            Term { degree: 2, coefficient: coef(3.0) },
            Term { degree: 1, coefficient: coef(4.0) },
        ],
    };
    let rhs = Polynomial {
        terms: vec![
            Term { degree: 2, coefficient: coef(1.0) },
            Term { degree: 0, coefficient: coef(2.0) },
        ],
    };

    let result = lhs.sub(rhs, &sum);
    assert_eq!(
        result.terms,
        vec![
            Term { degree: 2, coefficient: coef(2.0) },
            Term { degree: 1, coefficient: coef(4.0) },
            Term { degree: 0, coefficient: coef(-2.0) },
        ]
    );
}

#[test]
fn prints_reduced_form_in_sorted_order() {
    let mut poly = Polynomial {
        terms: vec![
            Term { degree: 1, coefficient: coef(-2.0) },
            Term { degree: 0, coefficient: coef(3.0) },
            Term { degree: 2, coefficient: coef(1.0) },
        ],
    };
    let reduced = poly.print_reduced_form(&show);
    assert!(reduced.starts_with("3"));
    assert!(reduced.contains("X^1"));
    assert!(reduced.ends_with("= 0"));
    assert_eq!(reduced, "3 * X^0 - 2 * X^1 + 1 * X^2 = 0");
    assert_eq!(poly.terms, vec![term(0, 3.0), term(1, -2.0), term(2, 1.0)]);
}

#[test]
fn solves_first_degree() {
    // 2 * X + 4 = 0, so X = -2
    let poly = Polynomial {
        terms: vec![
            Term { degree: 1, coefficient: coef(2.0) },
            Term { degree: 0, coefficient: coef(4.0) },
        ],
    };
    let text = format!("{}", (-4.0 / 2.0));
    assert_eq!(text, "-2");
    assert_eq!((-4.0 / 2.0), -2.0);
    assert_eq!(
        poly.try_solve(&sum, &product, &quotient, &root),
        Answer::One { a: coef(2.0), b: coef(4.0), root: coef(-2.0) }
    );
    assert_eq!(
        poly.solve_first_degree(&quotient),
        Answer::One { a: coef(2.0), b: coef(4.0), root: coef(-2.0) }
    );
}

#[test]
fn insertion_appends_a_new_degree() {
    let mut poly = Polynomial::new();
    poly.push_term(term(2, 1.0), &sum);
    poly.push_term(term(0, 5.0), &sum);
    poly.push_term(term(2, -4.0), &sum);
    poly.push_term(term(1, 0.5), &sum);
    assert_eq!(poly.terms, vec![term(2, -3.0), term(0, 5.0), term(1, 0.5)]);
    assert_eq!(poly.find(0), Some(1));
    assert_eq!(poly.find(7), None);
}

#[test]
fn a_polynomial_minus_itself_is_zero() {
    let p = Polynomial { terms: vec![term(3, 2.5), term(0, -1.0), term(1, 1e300)] };
    let r = p.clone().sub(p, &sum);
    assert_eq!(r.terms.len(), 3);
    for t in &r.terms {
        assert_eq!(value(t.coefficient), 0.0);
    }
    assert_eq!(r.get_degree(), 0);
}

#[test]
fn degree_ignores_zero_coefficients() {
    let p = Polynomial { terms: vec![term(1, 3.0), term(9, 0.0), term(4, -0.0)] };
    assert_eq!(p.get_degree(), 1);
    assert_eq!(Polynomial::new().get_degree(), 0);
    let z = Polynomial { terms: vec![term(5, 0.0)] };
    assert_eq!(z.get_degree(), 0);
}

#[test]
fn sorting_is_by_degree_and_stable() {
    let mut p = Polynomial { terms: vec![term(2, 1.0), term(0, 2.0), term(2, 3.0), term(1, 4.0)] };
    p.sort_by_degree();
    assert_eq!(p.terms, vec![term(0, 2.0), term(1, 4.0), term(2, 1.0), term(2, 3.0)]);
    let mut q = Polynomial { terms: vec![term(255, 1.0), term(0, 2.0)] };
    q.sort_by_degree();
    assert_eq!(q.terms, vec![term(0, 2.0), term(255, 1.0)]);
}

#[test]
fn coefficient_lookup() {
    let p = Polynomial { terms: vec![term(2, 1.0), term(0, 2.0)] };
    assert_eq!(p.coefficient(2), coef(1.0));
    assert_eq!(p.coefficient(0), coef(2.0));
    assert_eq!(p.coefficient(1), coef(0.0));
}

#[test]
fn reduced_form_leaves_out_zero_terms_above_degree_zero() {
    let mut p = Polynomial { terms: vec![term(2, 0.0), term(0, 0.0), term(1, -1.0)] };
    assert_eq!(p.print_reduced_form(&show), "0 * X^0 - 1 * X^1 = 0");
    let mut q = Polynomial { terms: vec![term(2, 0.0)] };
    assert_eq!(q.print_reduced_form(&show), "0 = 0");
    assert_eq!(Polynomial::new().print_reduced_form(&show), "0 = 0");
    assert_eq!(Polynomial::new().print_free_form(&show), "0 = 0");
}

#[test]
fn reduced_form_without_a_constant() {
    let mut p = Polynomial { terms: vec![term(2, 1.0)] };
    assert_eq!(p.print_reduced_form(&show), " + 1 * X^2 = 0");
    let mut q = Polynomial { terms: vec![term(2, 1.0)] };
    assert_eq!(q.print_free_form(&show), " + X^2 = 0");
}

#[test]
fn free_form_of_a_polynomial() {
    let mut p = Polynomial { terms: vec![term(2, -1.0), term(1, 4.0), term(0, 5.0)] };
    assert_eq!(p.print_free_form(&show), "5 + 4 * X - X^2 = 0");
    let mut q = Polynomial { terms: vec![term(2, -1.0), term(1, 4.0), term(0, 5.0)] };
    assert_eq!(q.print_reduced_form(&show), "5 * X^0 + 4 * X^1 - 1 * X^2 = 0");
}

#[test]
fn equation_kinds() {
    let p = Polynomial { terms: vec![term(3, 1.0)] };
    assert_eq!(p.kind(), Kind::TooHigh);
    let p = Polynomial { terms: vec![term(0, 0.0)] };
    assert_eq!(p.kind(), Kind::Identity);
    assert_eq!(Polynomial::new().kind(), Kind::Identity);
    let p = Polynomial { terms: vec![term(0, 4.0), term(1, 0.0)] };
    assert_eq!(p.kind(), Kind::Contradiction);
    let p = Polynomial { terms: vec![term(0, 4.0), term(1, 2.0), term(3, 0.0)] };
    assert_eq!(p.kind(), Kind::Linear);
    let p = Polynomial { terms: vec![term(2, 1.0)] };
    assert_eq!(p.kind(), Kind::Quadratic);
}

#[test]
fn answers_without_roots() {
    let p = Polynomial { terms: vec![term(3, 1.0), term(0, 1.0)] };
    assert_eq!(p.try_solve(&sum, &product, &quotient, &root), Answer::TooHigh);
    let p = Polynomial { terms: vec![term(0, 0.0), term(2, 0.0)] };
    assert_eq!(p.try_solve(&sum, &product, &quotient, &root), Answer::Identity);
    let p = Polynomial { terms: vec![term(0, -3.0)] };
    assert_eq!(p.try_solve(&sum, &product, &quotient, &root), Answer::Contradiction);
}

#[test]
fn quadratic_with_two_real_roots() {
    // 2 * X^2 - 3 * X + 1 = 0: the discriminant is 1, the roots 1/2 and 1
    let p = Polynomial { terms: vec![term(0, 1.0), term(1, -3.0), term(2, 2.0)] };
    let expected = Answer::Two {
        a: coef(2.0),
        b: coef(-3.0),
        c: coef(1.0),
        discriminant: coef(1.0),
        first: coef(0.5),
        second: coef(1.0),
    };
    assert_eq!(p.try_solve(&sum, &product, &quotient, &root), expected);
    assert_eq!(p.solve_second_degree(&sum, &product, &quotient, &root), expected);
}

#[test]
fn quadratic_with_conjugate_roots() {
    // X^2 + 2 * X + 5 = 0: the discriminant is -16, the roots -1 + 2i and -1 - 2i
    let p = Polynomial { terms: vec![term(0, 5.0), term(1, 2.0), term(2, 1.0)] };
    assert_eq!(
        p.try_solve(&sum, &product, &quotient, &root),
        Answer::Conjugate {
            a: coef(1.0),
            b: coef(2.0),
            c: coef(5.0),
            discriminant: coef(-16.0),
            re: coef(-1.0),
            im: coef(2.0),
        }
    );
}

#[test]
fn quadratic_with_a_repeated_root() {
    // X^2 - 4 * X + 4 = 0: the discriminant is 0, the root 2
    let p = Polynomial { terms: vec![term(0, 4.0), term(1, -4.0), term(2, 1.0)] };
    assert_eq!(
        p.try_solve(&sum, &product, &quotient, &root),
        Answer::Repeated {
            a: coef(1.0),
            b: coef(-4.0),
            c: coef(4.0),
            discriminant: coef(0.0),
            root: coef(2.0),
        }
    );
}

#[test]
fn quadratic_without_a_discriminant() {
    let p = Polynomial { terms: vec![term(0, 1.0), term(1, f64::INFINITY), term(2, f64::INFINITY)] };
    match p.try_solve(&sum, &product, &quotient, &root) {
        Answer::Undefined { discriminant, .. } => assert!(value(discriminant).is_nan()),
        other => panic!("a discriminant: {:?}", other),
    }
}

#[test]
fn roots_by_discriminant() {
    assert_eq!(Roots::of(coef(36.0)), Some(Roots::TwoReal));
    assert_eq!(Roots::of(coef(-4.0)), Some(Roots::Conjugate));
    assert_eq!(Roots::of(coef(0.0)), Some(Roots::Repeated));
    assert_eq!(Roots::of(coef(-0.0)), Some(Roots::Repeated));
    assert_eq!(Roots::of(coef(f64::NAN)), None);
}

fn write(c: Coefficient) -> String {
    format!("<{}>", value(c))
}

#[test]
fn report_of_a_linear_equation() {
    let p = Polynomial { terms: vec![term(1, 2.0), term(0, 4.0)] };
    let lines = p.try_solve(&sum, &product, &quotient, &root).report(&show, &write);
    assert_eq!(
        lines,
        vec![
            "\x1b[33m[ INTERMEDIATE STEP ] 2 * X^1 = -4 * X^0\x1b[0m".to_string(),
            "\x1b[33m[ INTERMEDIATE STEP ] X = -4 / 2\x1b[0m".to_string(),
            "The solution is:".to_string(),
            "<-2>".to_string(),
        ]
    );
}

#[test]
fn report_of_quadratic_equations() {
    let p = Polynomial { terms: vec![term(0, 1.0), term(1, -3.0), term(2, 2.0)] };
    let lines = p.try_solve(&sum, &product, &quotient, &root).report(&show, &write);
    assert_eq!(
        lines,
        vec![
            "\x1b[33m[ INTERMEDIATE STEP ] Discriminant = -3^2 - 4 * 2 * 1 = 1\x1b[0m".to_string(),
            "\x1b[33m[ INTERMEDIATE STEP] X = ±3 - sqrt(1) / (2 * 2)\x1b[0m".to_string(),
            "The discriminant is strictly positive, the two solutions are:".to_string(),
            "<0.5>".to_string(),
            "<1>".to_string(),
        ]
    );
    let p = Polynomial { terms: vec![term(0, 5.0), term(1, 2.0), term(2, 1.0)] };
    let lines = p.try_solve(&sum, &product, &quotient, &root).report(&show, &write);
    assert_eq!(
        lines,
        vec![
            "\x1b[33m[ INTERMEDIATE STEP ] Discriminant = 2^2 - 4 * 1 * 5 = -16\x1b[0m".to_string(),
            "\x1b[33m[ INTERMEDIATE STEP ] X = ±2 - sqrt(-16) / (2 * 1)\x1b[0m".to_string(),
            "The discriminant is strictly negative, the two solutions are:".to_string(),
            "<-1> + <2>i".to_string(),
            "<-1> - <2>i".to_string(),
        ]
    );
    let p = Polynomial { terms: vec![term(0, 4.0), term(1, -4.0), term(2, 1.0)] };
    let lines = p.try_solve(&sum, &product, &quotient, &root).report(&show, &write);
    assert_eq!(
        lines,
        vec![
            "\x1b[33m[ INTERMEDIATE STEP ] Discriminant = -4^2 - 4 * 1 * 4 = 0\x1b[0m".to_string(),
            "\x1b[33m[ INTERMEDIATE STEP ] X = ±4 - sqrt(0) / (2 * 1)\x1b[0m".to_string(),
            "The discriminant is strictly zero, the only solution is:".to_string(),
            "<2>".to_string(),
        ]
    );
}

#[test]
fn report_without_roots() {
    assert_eq!(
        Answer::TooHigh.report(&show, &write),
        vec!["The polynomial degree is strictly greater than 2, I can't solve.".to_string()]
    );
    assert_eq!(
        Answer::Identity.report(&show, &write),
        vec!["Any real number is a solution.".to_string()]
    );
    assert_eq!(Answer::Contradiction.report(&show, &write), vec!["No Solution.".to_string()]);
}

#[test]
fn absolute_value_clears_the_sign() {
    for x in [0.0f64, -0.0, 2.5, -7.0, f64::NEG_INFINITY] {
        assert_eq!(coef(x).abs(), coef(x.abs()));
    }
}
