//! Where the test of denominators is exact, the number `n / d` is written
//! as the fraction `n / d` in lowest terms.

use vstd::prelude::*;
use vstd::arithmetic::div_mod::{
    lemma_fundamental_div_mod, lemma_mod_multiples_basic, lemma_mod_self_0,
};
use crate::coefficient::Coefficient;
use crate::format::{first_fraction, fraction_or_fixed, nearest_by};
use crate::fraction::{
    common_divisor, fraction_text, lemma_divisor_of_magnitude, magnitude, Fraction,
};

verus! {

/// Bezout's identity: a common divisor `g` of `a` and `b` with
/// `x * a + y * b == g`, given as `(x, y, g)`.
proof fn lemma_bezout(a: int, b: int) -> (r: (int, int, int))
    requires
        a >= 0,
        b >= 0,
        a + b > 0,
    ensures
        common_divisor(r.2, a, b),
        r.0 * a + r.1 * b == r.2,
    decreases b,
{
    if b == 0 {
        lemma_mod_self_0(a);
        assert(0int % a == 0);
        assert(1 * a + 0 * b == a);
        (1, 0, a)
    } else {
        let q = a / b;
        let m = a % b;
        lemma_fundamental_div_mod(a, b);
        let (x, y, g) = lemma_bezout(b, m);
        lemma_fundamental_div_mod(b, g);
        lemma_fundamental_div_mod(m, g);
        let k1 = b / g;
        let k2 = m / g;
        assert(a == (k1 * q + k2) * g) by (nonlinear_arith)
            requires
                a == b * q + m,
                b == g * k1,
                m == g * k2,
        ;
        lemma_mod_multiples_basic(k1 * q + k2, g);
        assert(y * a + (x - y * q) * b == g) by (nonlinear_arith)
            requires
                a == b * q + m,
                x * b + y * m == g,
        ;
        (y, x - y * q, g)
    }
}

/// Euclid's lemma for a fraction in lowest terms: a positive denominator
/// of any fraction with the same value is a multiple of its denominator.
proof fn lemma_least_denominator(f: Fraction, m: int, den: int)
    requires
        f.reduced(),
        den >= 1,
        f.num * den == m * f.den,
    ensures
        den % (f.den as int) == 0,
        f.den <= den,
{
    let p = f.num as int;
    let q = f.den as int;
    let a = magnitude(p) as int;
    let (x0, y, g) = lemma_bezout(a, q);
    lemma_divisor_of_magnitude(g, p);
    assert(common_divisor(g, p, q));
    assert(g == 1);
    let x = if p < 0 {
        -x0
    } else {
        x0
    };
    assert(x * p + y * q == 1) by (nonlinear_arith)
        requires
            x0 * a + y * q == 1,
            a == if p < 0 {
                -p
            } else {
                p
            },
            x == if p < 0 {
                -x0
            } else {
                x0
            },
    ;
    let k = x * m + y * den;
    assert(den == k * q) by (nonlinear_arith)
        requires
            x * p + y * q == 1,
            p * den == m * q,
            k == x * m + y * den,
    ;
    lemma_mod_multiples_basic(k, q);
    assert(q <= den) by (nonlinear_arith)
        requires
            den == k * q,
            den >= 1,
            q > 0,
    ;
}

/// The test of denominators is exact for `n / d`: it yields a numerator
/// for a denominator exactly where the product of `n / d` and the
/// denominator is an integer, and then that integer.
pub open spec fn is_exact<A: Fn(Coefficient, u8) -> Option<i64>>(
    nearest: A,
    x: Coefficient,
    n: int,
    d: int,
) -> bool {
    forall|den: u8|
        1 <= den <= 100 ==> match #[trigger] nearest_by(nearest, x, den) {
            Some(m) => m * d == n * den,
            None => (n * den) % d != 0,
        }
}

proof fn lemma_first_is_reduced<A: Fn(Coefficient, u8) -> Option<i64>>(
    nearest: A,
    x: Coefficient,
    n: int,
    d: int,
    f: Fraction,
    den: int,
)
    requires
        1 <= d <= 100,
        is_exact(nearest, x, n, d),
        f.reduced(),
        f.same_value(n, d),
        1 <= den <= f.den <= 100,
    ensures
        first_fraction(nearest, x, den) == Some(f),
    decreases f.den - den,
{
    let p = f.num as int;
    let q = f.den as int;
    let r = nearest_by(nearest, x, den as u8);
    if den == q {
        assert(n * q == p * d);
        lemma_mod_multiples_basic(p, d);
        match r {
            Some(m) => {
                assert(m == p) by (nonlinear_arith)
                    requires
                        m * d == n * q,
                        n * q == p * d,
                        d >= 1,
                ;
            },
            None => {
                assert((n * q) % d != 0);
            },
        }
    } else {
        match r {
            Some(m) => {
                assert(p * den == m * q) by (nonlinear_arith)
                    requires
                        m * d == n * den,
                        p * d == n * q,
                        d >= 1,
                ;
                lemma_least_denominator(f, m as int, den);
            },
            None => {},
        }
        lemma_first_is_reduced(nearest, x, n, d, f, den + 1);
    }
}

/// For a number `n / d` with a denominator from 1 to 100 and a test of
/// denominators that is exact for it, the text is the fraction in lowest
/// terms: the integer where `d` divides `n`, and otherwise the numerator,
/// a stroke and the denominator.
pub proof fn lemma_exact_fraction<A: Fn(Coefficient, u8) -> Option<i64>, D: Fn(Coefficient) -> String>(
    x: Coefficient,
    n: int,
    d: int,
    f: Fraction,
    nearest: A,
    fixed: D,
)
    requires
        1 <= d <= 100,
        is_exact(nearest, x, n, d),
        f.reduced(),
        f.same_value(n, d),
    ensures
        fraction_or_fixed(x, nearest, fixed) == fraction_text(f),
{
    lemma_least_denominator(f, n, d);
    lemma_first_is_reduced(nearest, x, n, d, f, 1);
}

} // verus!
