//! Numbers written as small fractions where one is near enough.

use vstd::prelude::*;
use crate::coefficient::{is_display, lemma_shown, shown_by, shows_text, Coefficient};
use crate::fraction::{fraction_text, Fraction};

verus! {

/// The largest denominator that is tried.
pub const MAX_DENOMINATOR: u8 = 100;

/// A test of denominators that accepts every number and denominator and
/// yields one result for each: the numerator over that denominator that
/// is near enough to the number, or none.
pub open spec fn is_approximation<A: Fn(Coefficient, u8) -> Option<i64>>(a: A) -> bool {
    &&& forall|x: Coefficient, den: u8| #[trigger] a.requires((x, den))
    &&& forall|x: Coefficient, den: u8, r1: Option<i64>, r2: Option<i64>|
        #[trigger] a.ensures((x, den), r1) && #[trigger] a.ensures((x, den), r2) ==> r1 == r2
}

/// What the test yields for a number and a denominator.
pub open spec fn nearest_by<A: Fn(Coefficient, u8) -> Option<i64>>(
    a: A,
    x: Coefficient,
    den: u8,
) -> Option<i64> {
    choose|r: Option<i64>| a.ensures((x, den), r)
}

/// The first denominator from `den` up to the largest for which the test
/// yields a numerator, with that numerator.
pub open spec fn first_fraction<A: Fn(Coefficient, u8) -> Option<i64>>(
    a: A,
    x: Coefficient,
    den: int,
) -> Option<Fraction>
    decreases MAX_DENOMINATOR + 1 - den,
{
    if den < 1 || den > MAX_DENOMINATOR {
        None
    } else {
        match nearest_by(a, x, den as u8) {
            Some(num) => Some(Fraction { num, den: den as i64 }),
            None => first_fraction(a, x, den + 1),
        }
    }
}

/// The test has a result for every denominator that is tried from `den`
/// on, and the display has a text where none is accepted.
pub open spec fn fraction_yields<A: Fn(Coefficient, u8) -> Option<i64>, D: Fn(Coefficient) -> String>(
    x: Coefficient,
    nearest: A,
    fixed: D,
    den: int,
) -> bool
    decreases MAX_DENOMINATOR + 1 - den,
{
    if den < 1 {
        true
    } else if den > MAX_DENOMINATOR {
        shows_text(fixed, x)
    } else {
        &&& nearest.ensures((x, den as u8), nearest_by(nearest, x, den as u8))
        &&& nearest_by(nearest, x, den as u8) is None ==> fraction_yields(
            x,
            nearest,
            fixed,
            den + 1,
        )
    }
}

/// The number as text: the fraction with the smallest denominator from 1
/// to 100 that the test accepts, written as an integer where that
/// denominator is one; the display's text where the test accepts none.
pub open spec fn fraction_or_fixed<A: Fn(Coefficient, u8) -> Option<i64>, D: Fn(Coefficient) -> String>(
    x: Coefficient,
    nearest: A,
    fixed: D,
) -> Seq<char> {
    match first_fraction(nearest, x, 1) {
        Some(f) => fraction_text(f),
        None => shown_by(fixed, x),
    }
}

/// Writes a number as a small fraction where `nearest` finds one for a
/// denominator from 1 to 100, taking the smallest such denominator, and
/// as `fixed` writes it otherwise.
pub fn fract_or_float<A: Fn(Coefficient, u8) -> Option<i64>, D: Fn(Coefficient) -> String>(
    x: Coefficient,
    nearest: &A,
    fixed: &D,
) -> (s: String)
    requires
        is_approximation(*nearest),
        is_display(*fixed),
    ensures
        s@ == fraction_or_fixed(x, *nearest, *fixed),
        fraction_yields(x, *nearest, *fixed, 1),
{
    let mut den: u8 = 1;
    while den <= MAX_DENOMINATOR
        invariant
            1 <= den <= MAX_DENOMINATOR + 1,
            is_approximation(*nearest),
            first_fraction(*nearest, x, 1) == first_fraction(*nearest, x, den as int),
            fraction_yields(x, *nearest, *fixed, den as int) ==> fraction_yields(
                x,
                *nearest,
                *fixed,
                1,
            ),
        decreases MAX_DENOMINATOR + 1 - den,
    {
        match nearest(x, den) {
            Some(num) => {
                return (Fraction { num, den: den as i64 }).to_text();
            },
            None => {},
        }
        den += 1;
    }
    let s = fixed(x);
    proof {
        lemma_shown(*fixed, x, s);
    }
    s
}

} // verus!
