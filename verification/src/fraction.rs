//! Exact fractions in lowest terms.

use vstd::prelude::*;
use vstd::arithmetic::div_mod::*;
use vstd::arithmetic::mul::*;
use crate::text::{push_signed_decimal, signed_decimal, string_of};

verus! {

/// `d` is a positive common divisor of `a` and `b`.
pub open spec fn common_divisor(d: int, a: int, b: int) -> bool {
    d > 0 && a % d == 0 && b % d == 0
}

/// `g` is the greatest common divisor of `a` and `b`, with the convention
/// that the greatest common divisor of zero and zero is zero.
pub open spec fn is_gcd(g: int, a: int, b: int) -> bool {
    if a == 0 && b == 0 {
        g == 0
    } else {
        &&& common_divisor(g, a, b)
        &&& forall|d: int| #[trigger] common_divisor(d, a, b) ==> d <= g
    }
}

/// The magnitude of `x`.
pub open spec fn magnitude(x: int) -> nat {
    if x < 0 {
        (-x) as nat
    } else {
        x as nat
    }
}

fn unsigned(x: i64) -> (r: u64)
    ensures
        r == magnitude(x as int),
{
    if x < 0 {
        ((-(x + 1)) as u64) + 1
    } else {
        x as u64
    }
}

/// A number and its magnitude have the same divisors.
pub proof fn lemma_divisor_of_magnitude(d: int, x: int)
    requires
        d > 0,
    ensures
        (x % d == 0) <==> (magnitude(x) as int % d == 0),
{
    if x < 0 {
        if x % d == 0 {
            lemma_fundamental_div_mod(x, d);
            let q = x / d;
            assert(-x == d * (-q)) by (nonlinear_arith)
                requires
                    x == d * q,
            ;
            lemma_mod_multiples_basic(-q, d);
            lemma_mul_is_commutative(d, -q);
        }
        if (-x) % d == 0 {
            lemma_fundamental_div_mod(-x, d);
            let q = (-x) / d;
            assert(x == d * (-q)) by (nonlinear_arith)
                requires
                    -x == d * q,
            ;
            lemma_mod_multiples_basic(-q, d);
            lemma_mul_is_commutative(d, -q);
        }
    }
}

proof fn lemma_remainder_keeps_divisors(d: int, x: int, y: int)
    requires
        d > 0,
        y > 0,
        x >= 0,
    ensures
        common_divisor(d, x, y) <==> common_divisor(d, y, x % y),
{
    lemma_fundamental_div_mod(x, y);
    let q = x / y;
    let r = x % y;
    if y % d == 0 {
        lemma_fundamental_div_mod(y, d);
        let k = y / d;
        assert(y * q == d * (k * q)) by (nonlinear_arith)
            requires
                y == d * k,
        ;
        lemma_mul_is_commutative(d, k * q);
        lemma_mod_multiples_vanish(k * q, r, d);
        lemma_mod_multiples_vanish(-(k * q), x, d);
        assert((k * q) * d + r == x);
        assert(d * (-(k * q)) + x == r) by (nonlinear_arith)
            requires
                (k * q) * d + r == x,
        ;
    }
}

/// Greatest common divisor by Euclid's algorithm, as a non-negative number.
pub fn gcd(a: i64, b: i64) -> (g: i64)
    requires
        a > i64::MIN,
        b > i64::MIN,
    ensures
        is_gcd(g as int, a as int, b as int),
        g >= 0,
{
    let mut x: u64 = unsigned(a);
    let mut y: u64 = unsigned(b);
    proof {
        assert forall|d: int| d > 0 implies (common_divisor(d, x as int, y as int)
            <==> common_divisor(d, a as int, b as int)) by {
            lemma_divisor_of_magnitude(d, a as int);
            lemma_divisor_of_magnitude(d, b as int);
        }
    }
    while y != 0
        invariant
            x <= i64::MAX,
            y <= i64::MAX,
            (x == 0 && y == 0) <==> (a == 0 && b == 0),
            forall|d: int|
                d > 0 ==> (common_divisor(d, x as int, y as int) <==> common_divisor(
                    d,
                    a as int,
                    b as int,
                )),
        decreases y,
    {
        let t: u64 = y;
        proof {
            assert forall|d: int| d > 0 implies (common_divisor(d, x as int, y as int)
                <==> common_divisor(d, y as int, (x % y) as int)) by {
                lemma_remainder_keeps_divisors(d, x as int, y as int);
            }
            lemma_mod_bound(x as int, y as int);
        }
        y = x % y;
        x = t;
    }
    proof {
        if x != 0 {
            lemma_mod_self_0(x as int);
            assert(common_divisor(x as int, x as int, 0));
            assert forall|d: int| #[trigger] common_divisor(d, a as int, b as int) implies d
                <= x by {
                assert(common_divisor(d, x as int, 0));
                lemma_fundamental_div_mod(x as int, d);
                let q = x as int / d;
                assert(q >= 1 && d * q >= d) by (nonlinear_arith)
                    requires
                        x == d * q,
                        x > 0,
                        d > 0,
                ;
            }
        }
    }
    x as i64
}

/// A fraction `num / den`.
#[derive(Debug, Clone, Copy, PartialEq, Eq, Structural)]
pub struct Fraction {
    pub num: i64,
    pub den: i64,
}

proof fn lemma_scaled_divisor(d: int, g: int, x: int)
    requires
        d > 0,
        g > 0,
        x % g == 0,
        (x / g) % d == 0,
    ensures
        x % (d * g) == 0,
        d * g > 0,
{
    lemma_fundamental_div_mod(x, g);
    lemma_fundamental_div_mod(x / g, d);
    let k = (x / g) / d;
    assert(x == k * (d * g)) by (nonlinear_arith)
        requires
            x == g * (x / g),
            x / g == d * k,
    ;
    assert(d * g > 0) by (nonlinear_arith)
        requires
            d > 0,
            g > 0,
    ;
    lemma_mod_multiples_basic(k, d * g);
}

impl Fraction {
    /// The fraction is in lowest terms with a positive denominator.
    pub open spec fn reduced(self) -> bool {
        &&& self.den > 0
        &&& forall|d: int| #[trigger] common_divisor(d, self.num as int, self.den as int) ==> d == 1
    }

    /// The two fractions denote the same rational number.
    pub open spec fn same_value(self, num: int, den: int) -> bool {
        self.num * den == num * self.den
    }

    /// The fraction `num / den` in lowest terms, with a positive denominator.
    pub fn new(num: i64, den: i64) -> (r: Fraction)
        requires
            den != 0,
            num > i64::MIN,
            den > i64::MIN,
        ensures
            r.reduced(),
            r.same_value(num as int, den as int),
    {
        let g: i64 = gcd(num, den);
        assert(common_divisor(g as int, num as int, den as int));
        let ghost n0 = num as int / g as int;
        let ghost d0 = den as int / g as int;
        proof {
            lemma_fundamental_div_mod(num as int, g as int);
            lemma_fundamental_div_mod(den as int, g as int);
            assert(n0 * den == num * d0) by (nonlinear_arith)
                requires
                    num == g * n0,
                    den == g * d0,
            ;
            assert(d0 != 0 && -i64::MAX <= d0 <= i64::MAX && -i64::MAX <= n0 <= i64::MAX)
                by (nonlinear_arith)
                requires
                    num == g * n0,
                    den == g * d0,
                    g >= 1,
                    den != 0,
                    -i64::MAX <= num <= i64::MAX,
                    -i64::MAX <= den <= i64::MAX,
            ;
            assert forall|d: int| #[trigger] common_divisor(d, n0, d0) implies d == 1 by {
                lemma_scaled_divisor(d, g as int, num as int);
                lemma_scaled_divisor(d, g as int, den as int);
                assert(common_divisor(d * g, num as int, den as int));
                assert(d == 1) by (nonlinear_arith)
                    requires
                        d * g <= g,
                        d > 0,
                        g > 0,
                ;
            }
        }
        let an: u64 = unsigned(num) / (g as u64);
        let ad: u64 = unsigned(den) / (g as u64);
        proof {
            lemma_magnitude_quotient(num as int, g as int);
            lemma_magnitude_quotient(den as int, g as int);
        }
        let n: i64 = if (num < 0) != (den < 0) {
            -(an as i64)
        } else {
            an as i64
        };
        let r = Fraction { num: n, den: ad as i64 };
        proof {
            if den < 0 {
                assert(r.num == -n0 && r.den == -d0);
                assert(r.num * den == num * r.den) by (nonlinear_arith)
                    requires
                        n0 * den == num * d0,
                        r.num == -n0,
                        r.den == -d0,
                ;
                assert forall|d: int| #[trigger]
                    common_divisor(d, r.num as int, r.den as int) implies d == 1 by {
                    lemma_divisor_of_magnitude(d, n0);
                    lemma_divisor_of_magnitude(d, d0);
                    lemma_divisor_of_magnitude(d, -n0);
                    lemma_divisor_of_magnitude(d, -d0);
                    assert(common_divisor(d, n0, d0));
                }
            } else {
                assert(r.num == n0 && r.den == d0);
            }
        }
        r
    }
}

proof fn lemma_magnitude_quotient(x: int, g: int)
    requires
        g > 0,
        x % g == 0,
    ensures
        magnitude(x) as int / g == magnitude(x / g),
{
    lemma_fundamental_div_mod(x, g);
    let q = x / g;
    if x < 0 {
        assert(-x == (-q) * g && q <= 0) by (nonlinear_arith)
            requires
                x == g * q,
                x < 0,
                g > 0,
        ;
        lemma_div_multiples_vanish(-q, g);
    } else {
        assert(q >= 0) by (nonlinear_arith)
            requires
                x == g * q,
                x >= 0,
                g > 0,
        ;
    }
}

/// How a fraction is written: `NaN` for the denominator zero, the
/// numerator alone for the denominator one, and `num/den` otherwise.
pub open spec fn fraction_text(f: Fraction) -> Seq<char> {
    if f.den == 0 {
        seq!['N', 'a', 'N']
    } else if f.den == 1 {
        signed_decimal(f.num as int)
    } else {
        signed_decimal(f.num as int) + seq!['/'] + signed_decimal(f.den as int)
    }
}

impl Fraction {
    /// The fraction as text.
    pub fn to_text(&self) -> (s: String)
        ensures
            s@ == fraction_text(*self),
    {
        let mut out: Vec<char> = Vec::new();
        if self.den == 0 {
            out.push('N');
            out.push('a');
            out.push('N');
            assert(out@ == fraction_text(*self));
        } else if self.den == 1 {
            push_signed_decimal(&mut out, self.num);
            assert(out@ == fraction_text(*self));
        } else {
            push_signed_decimal(&mut out, self.num);
            out.push('/');
            push_signed_decimal(&mut out, self.den);
            assert(out@ == fraction_text(*self));
        }
        string_of(out)
    }
}

/// A fraction in lowest terms that denotes `n / d`, with `d` positive, is written as the
/// integer `n / d` where `d` divides `n`, and with a denominator above one
/// otherwise.
pub proof fn lemma_reduced_text(f: Fraction, n: int, d: int)
    requires
        d >= 1,
        f.reduced(),
        f.same_value(n, d),
    ensures
        n % d == 0 ==> f.den == 1 && f.num == n / d && fraction_text(f) == signed_decimal(n / d),
        n % d != 0 ==> f.den > 1 && fraction_text(f) == signed_decimal(f.num as int) + seq!['/']
            + signed_decimal(f.den as int),
{
    if n % d == 0 {
        lemma_fundamental_div_mod(n, d);
        let k = n / d;
        assert(f.num == k * f.den) by (nonlinear_arith)
            requires
                f.num * d == n * f.den,
                n == d * k,
                d != 0,
        ;
        lemma_mod_multiples_basic(k, f.den as int);
        lemma_mod_self_0(f.den as int);
        assert(common_divisor(f.den as int, f.num as int, f.den as int));
        assert(f.num == k) by (nonlinear_arith)
            requires
                f.num == k * f.den,
                f.den == 1,
        ;
    } else {
        if f.den == 1 {
            assert(n == f.num * d) by (nonlinear_arith)
                requires
                    f.num * d == n * f.den,
                    f.den == 1,
            ;
            lemma_mod_multiples_basic(f.num as int, d);
        }
    }
}

} // verus!
