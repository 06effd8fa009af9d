//! Solving `polynomial = 0` for a polynomial of degree at most two.
//!
//! The arithmetic on coefficients (sum, product, quotient, square root) is
//! the caller's; the solver decides which formula applies and applies it.

use vstd::prelude::*;
use crate::coefficient::{applied, is_operation, lemma_negation, yields, Coefficient, Sign};
use crate::polynomial::{coefficient_at, effective_degree, Polynomial};
use crate::term::Term;

verus! {

/// The pattern of the number two.
pub const TWO: u64 = 0x4000_0000_0000_0000;

/// The pattern of the number four.
pub const FOUR: u64 = 0x4010_0000_0000_0000;

/// The kind of equation that a reduced polynomial gives.
#[derive(Debug, Clone, Copy, PartialEq, Eq, Structural)]
pub enum Kind {
    /// The degree is above two.
    TooHigh,
    /// `0 = 0`.
    Identity,
    /// `c = 0` with `c` other than zero.
    Contradiction,
    /// Degree one.
    Linear,
    /// Degree two.
    Quadratic,
}

/// The roots of a quadratic equation, by the sign of its discriminant.
#[derive(Debug, Clone, Copy, PartialEq, Eq, Structural)]
pub enum Roots {
    /// A positive discriminant: two real roots.
    TwoReal,
    /// A negative discriminant: two complex conjugate roots.
    Conjugate,
    /// The discriminant zero: one real root, twice.
    Repeated,
}

/// The solutions of an equation `polynomial = 0`.
#[derive(Debug, Clone, Copy, PartialEq, Eq, Structural)]
pub enum Answer {
    /// The degree is above two: the equation is not solved.
    TooHigh,
    /// Every real number is a solution.
    Identity,
    /// There is no solution.
    Contradiction,
    /// The one solution of `a * X + b = 0`.
    One { a: Coefficient, b: Coefficient, root: Coefficient },
    /// The two real solutions of `a * X^2 + b * X + c = 0` for a positive
    /// discriminant.
    Two {
        a: Coefficient,
        b: Coefficient,
        c: Coefficient,
        discriminant: Coefficient,
        first: Coefficient,
        second: Coefficient,
    },
    /// The solutions `re + im * i` and `re - im * i` for a negative
    /// discriminant.
    Conjugate {
        a: Coefficient,
        b: Coefficient,
        c: Coefficient,
        discriminant: Coefficient,
        re: Coefficient,
        im: Coefficient,
    },
    /// The one solution for the discriminant zero.
    Repeated {
        a: Coefficient,
        b: Coefficient,
        c: Coefficient,
        discriminant: Coefficient,
        root: Coefficient,
    },
    /// The discriminant is not a number.
    Undefined { a: Coefficient, b: Coefficient, c: Coefficient, discriminant: Coefficient },
}

/// The kind of equation that the terms give: by their effective degree,
/// and at degree zero by whether the constant is zero.
pub open spec fn kind_of(s: Seq<Term>) -> Kind {
    let d = effective_degree(s);
    if d > 2 {
        Kind::TooHigh
    } else if d == 2 {
        Kind::Quadratic
    } else if d == 1 {
        Kind::Linear
    } else if coefficient_at(s, 0).is_zero() {
        Kind::Identity
    } else {
        Kind::Contradiction
    }
}

/// The kind of roots for a discriminant; none where it is not a number.
pub open spec fn roots_for(discriminant: Coefficient) -> Option<Roots> {
    match discriminant.sign() {
        Sign::Positive => Some(Roots::TwoReal),
        Sign::Negative => Some(Roots::Conjugate),
        Sign::Zero => Some(Roots::Repeated),
        Sign::Unordered => None,
    }
}

/// A square root: it accepts every positive number and yields one result
/// for each.
pub open spec fn is_root<R: Fn(Coefficient) -> Coefficient>(r: R) -> bool {
    &&& forall|c: Coefficient| c.sign() == Sign::Positive ==> #[trigger] r.requires((c,))
    &&& forall|c: Coefficient, r1: Coefficient, r2: Coefficient|
        #[trigger] r.ensures((c,), r1) && #[trigger] r.ensures((c,), r2) ==> r1 == r2
}

/// What the square root yields on a number.
pub open spec fn rooted<R: Fn(Coefficient) -> Coefficient>(r: R, c: Coefficient) -> Coefficient {
    choose|v: Coefficient| r.ensures((c,), v)
}

/// The discriminant `b * b - 4 * a * c`.
pub open spec fn discriminant_of<
    F: Fn(Coefficient, Coefficient) -> Coefficient,
    M: Fn(Coefficient, Coefficient) -> Coefficient,
>(a: Coefficient, b: Coefficient, c: Coefficient, sum: F, product: M) -> Coefficient {
    applied(
        sum,
        applied(product, b, b),
        applied(product, applied(product, Coefficient { bits: FOUR }, a), c).negated(),
    )
}

/// The solution `-b / a` of `a * X + b = 0`.
pub open spec fn linear_answer<Q: Fn(Coefficient, Coefficient) -> Coefficient>(
    a: Coefficient,
    b: Coefficient,
    quotient: Q,
) -> Answer {
    Answer::One { a, b, root: applied(quotient, b.negated(), a) }
}

/// The solutions of `a * X^2 + b * X + c = 0` by the sign of the
/// discriminant `d`: `(-b - sqrt(d)) / (2 * a)` and `(-b + sqrt(d)) / (2 * a)`
/// where it is positive; the real part `-b / (2 * a)` and the imaginary
/// part `sqrt(-d) / (2 * a)` where it is negative; `-b / (2 * a)` where it
/// is zero.
pub open spec fn quadratic_answer<
    F: Fn(Coefficient, Coefficient) -> Coefficient,
    M: Fn(Coefficient, Coefficient) -> Coefficient,
    Q: Fn(Coefficient, Coefficient) -> Coefficient,
    R: Fn(Coefficient) -> Coefficient,
>(a: Coefficient, b: Coefficient, c: Coefficient, sum: F, product: M, quotient: Q, root: R) -> Answer {
    let d = discriminant_of(a, b, c, sum, product);
    let twice = applied(product, Coefficient { bits: TWO }, a);
    match roots_for(d) {
        None => Answer::Undefined { a, b, c, discriminant: d },
        Some(Roots::TwoReal) => Answer::Two {
            a,
            b,
            c,
            discriminant: d,
            first: applied(quotient, applied(sum, b.negated(), rooted(root, d).negated()), twice),
            second: applied(quotient, applied(sum, b.negated(), rooted(root, d)), twice),
        },
        Some(Roots::Conjugate) => Answer::Conjugate {
            a,
            b,
            c,
            discriminant: d,
            re: applied(quotient, b.negated(), twice),
            im: applied(quotient, rooted(root, d.negated()), twice),
        },
        Some(Roots::Repeated) => Answer::Repeated {
            a,
            b,
            c,
            discriminant: d,
            root: applied(quotient, b.negated(), twice),
        },
    }
}

/// The square root has a result on the number.
pub open spec fn root_yields<R: Fn(Coefficient) -> Coefficient>(r: R, c: Coefficient) -> bool {
    r.ensures((c,), rooted(r, c))
}

/// Every operation that the solution of `a * X^2 + b * X + c = 0` takes
/// has a result.
pub open spec fn quadratic_yields<
    F: Fn(Coefficient, Coefficient) -> Coefficient,
    M: Fn(Coefficient, Coefficient) -> Coefficient,
    Q: Fn(Coefficient, Coefficient) -> Coefficient,
    R: Fn(Coefficient) -> Coefficient,
>(a: Coefficient, b: Coefficient, c: Coefficient, sum: F, product: M, quotient: Q, root: R) -> bool {
    let four = Coefficient { bits: FOUR };
    let d = discriminant_of(a, b, c, sum, product);
    let twice = applied(product, Coefficient { bits: TWO }, a);
    &&& yields(product, b, b)
    &&& yields(product, four, a)
    &&& yields(product, applied(product, four, a), c)
    &&& yields(
        sum,
        applied(product, b, b),
        applied(product, applied(product, four, a), c).negated(),
    )
    &&& yields(product, Coefficient { bits: TWO }, a)
    &&& match roots_for(d) {
        None => true,
        Some(Roots::TwoReal) => {
            &&& root_yields(root, d)
            &&& yields(sum, b.negated(), rooted(root, d).negated())
            &&& yields(sum, b.negated(), rooted(root, d))
            &&& yields(quotient, applied(sum, b.negated(), rooted(root, d).negated()), twice)
            &&& yields(quotient, applied(sum, b.negated(), rooted(root, d)), twice)
        },
        Some(Roots::Conjugate) => {
            &&& root_yields(root, d.negated())
            &&& yields(quotient, b.negated(), twice)
            &&& yields(quotient, rooted(root, d.negated()), twice)
        },
        Some(Roots::Repeated) => yields(quotient, b.negated(), twice),
    }
}

/// Every operation that the solution of the equation takes has a result.
pub open spec fn answer_yields<
    F: Fn(Coefficient, Coefficient) -> Coefficient,
    M: Fn(Coefficient, Coefficient) -> Coefficient,
    Q: Fn(Coefficient, Coefficient) -> Coefficient,
    R: Fn(Coefficient) -> Coefficient,
>(s: Seq<Term>, sum: F, product: M, quotient: Q, root: R) -> bool {
    match kind_of(s) {
        Kind::Linear => yields(quotient, coefficient_at(s, 0).negated(), coefficient_at(s, 1)),
        Kind::Quadratic => quadratic_yields(
            coefficient_at(s, 2),
            coefficient_at(s, 1),
            coefficient_at(s, 0),
            sum,
            product,
            quotient,
            root,
        ),
        _ => true,
    }
}

/// The solutions of the equation that the terms give, with `a`, `b` and
/// `c` the coefficients at the degrees two, one and zero.
pub open spec fn answer<
    F: Fn(Coefficient, Coefficient) -> Coefficient,
    M: Fn(Coefficient, Coefficient) -> Coefficient,
    Q: Fn(Coefficient, Coefficient) -> Coefficient,
    R: Fn(Coefficient) -> Coefficient,
>(s: Seq<Term>, sum: F, product: M, quotient: Q, root: R) -> Answer {
    match kind_of(s) {
        Kind::TooHigh => Answer::TooHigh,
        Kind::Identity => Answer::Identity,
        Kind::Contradiction => Answer::Contradiction,
        Kind::Linear => linear_answer(coefficient_at(s, 1), coefficient_at(s, 0), quotient),
        Kind::Quadratic => quadratic_answer(
            coefficient_at(s, 2),
            coefficient_at(s, 1),
            coefficient_at(s, 0),
            sum,
            product,
            quotient,
            root,
        ),
    }
}

impl Roots {
    /// The kind of roots of a quadratic equation with this discriminant.
    pub fn of(discriminant: Coefficient) -> (r: Option<Roots>)
        ensures
            r == roots_for(discriminant),
    {
        match discriminant.classify() {
            Sign::Positive => Some(Roots::TwoReal),
            Sign::Negative => Some(Roots::Conjugate),
            Sign::Zero => Some(Roots::Repeated),
            Sign::Unordered => None,
        }
    }
}

impl Polynomial {
    /// The kind of the equation `self = 0`.
    pub fn kind(&self) -> (k: Kind)
        ensures
            k == kind_of(self.terms@),
    {
        let d: u8 = self.get_degree();
        if d > 2 {
            Kind::TooHigh
        } else if d == 2 {
            Kind::Quadratic
        } else if d == 1 {
            Kind::Linear
        } else if self.coefficient(0).zero_valued() {
            Kind::Identity
        } else {
            Kind::Contradiction
        }
    }

    /// Solves `a * X^2 + b * X + c = 0`, with the coefficients of `self` at
    /// the degrees two, one and zero. The square root is taken of positive
    /// numbers only.
    pub fn solve_second_degree<
        F: Fn(Coefficient, Coefficient) -> Coefficient,
        M: Fn(Coefficient, Coefficient) -> Coefficient,
        Q: Fn(Coefficient, Coefficient) -> Coefficient,
        R: Fn(Coefficient) -> Coefficient,
    >(&self, sum: &F, product: &M, quotient: &Q, root: &R) -> (r: Answer)
        requires
            is_operation(*sum),
            is_operation(*product),
            is_operation(*quotient),
            is_root(*root),
        ensures
            r == quadratic_answer(
                coefficient_at(self.terms@, 2),
                coefficient_at(self.terms@, 1),
                coefficient_at(self.terms@, 0),
                *sum,
                *product,
                *quotient,
                *root,
            ),
            quadratic_yields(
                coefficient_at(self.terms@, 2),
                coefficient_at(self.terms@, 1),
                coefficient_at(self.terms@, 0),
                *sum,
                *product,
                *quotient,
                *root,
            ),
    {
        let a = self.coefficient(2);
        let b = self.coefficient(1);
        let c = self.coefficient(0);
        let square = product(b, b);
        let four_a = product(Coefficient::from_bits(FOUR), a);
        let four_a_c = product(four_a, c);
        let d = sum(square, four_a_c.negate());
        let twice = product(Coefficient::from_bits(TWO), a);
        let minus_b = b.negate();
        match Roots::of(d) {
            None => Answer::Undefined { a, b, c, discriminant: d },
            Some(Roots::TwoReal) => {
                let r = root(d);
                let first = quotient(sum(minus_b, r.negate()), twice);
                let second = quotient(sum(minus_b, r), twice);
                Answer::Two { a, b, c, discriminant: d, first, second }
            },
            Some(Roots::Conjugate) => {
                proof {
                    lemma_negation(d);
                }
                let r = root(d.negate());
                let re = quotient(minus_b, twice);
                let im = quotient(r, twice);
                Answer::Conjugate { a, b, c, discriminant: d, re, im }
            },
            Some(Roots::Repeated) => Answer::Repeated {
                a,
                b,
                c,
                discriminant: d,
                root: quotient(minus_b, twice),
            },
        }
    }

    /// Solves `a * X + b = 0`, with the coefficients of `self` at the
    /// degrees one and zero.
    pub fn solve_first_degree<Q: Fn(Coefficient, Coefficient) -> Coefficient>(
        &self,
        quotient: &Q,
    ) -> (r: Answer)
        requires
            is_operation(*quotient),
        ensures
            r == linear_answer(
                coefficient_at(self.terms@, 1),
                coefficient_at(self.terms@, 0),
                *quotient,
            ),
            yields(
                *quotient,
                coefficient_at(self.terms@, 0).negated(),
                coefficient_at(self.terms@, 1),
            ),
    {
        let a = self.coefficient(1);
        let b = self.coefficient(0);
        Answer::One { a, b, root: quotient(b.negate(), a) }
    }

    /// Solves the equation `self = 0` with the given arithmetic.
    pub fn try_solve<
        F: Fn(Coefficient, Coefficient) -> Coefficient,
        M: Fn(Coefficient, Coefficient) -> Coefficient,
        Q: Fn(Coefficient, Coefficient) -> Coefficient,
        R: Fn(Coefficient) -> Coefficient,
    >(&self, sum: &F, product: &M, quotient: &Q, root: &R) -> (r: Answer)
        requires
            is_operation(*sum),
            is_operation(*product),
            is_operation(*quotient),
            is_root(*root),
        ensures
            r == answer(self.terms@, *sum, *product, *quotient, *root),
            answer_yields(self.terms@, *sum, *product, *quotient, *root),
    {
        match self.kind() {
            Kind::TooHigh => Answer::TooHigh,
            Kind::Identity => Answer::Identity,
            Kind::Contradiction => Answer::Contradiction,
            Kind::Linear => self.solve_first_degree(quotient),
            Kind::Quadratic => self.solve_second_degree(sum, product, quotient, root),
        }
    }
}

} // verus!
