//! A term written as `c * X^d` is read back as the coefficient `c` and
//! the degree `d`.

use vstd::prelude::*;
use crate::coefficient::{read_by, Coefficient};
use crate::syntax::Fault;
use crate::term::{
    all_digits, components, degree_value, digit_value, fragments, has_double, has_stray, is_digit,
    is_star, kept, number, parsed_term, scanned, term_text, variable, Term,
};
use crate::text::{decimal, digit, is_space, starts_with, trim_end, trim_start, trimmed};

verus! {

/// A text that can stand as the coefficient part of a term: not empty, at
/// most fifteen characters, no white space at either end and no
/// multiplication sign anywhere.
pub open spec fn is_coefficient_text(c: Seq<char>) -> bool {
    &&& 0 < c.len() <= 15
    &&& !is_space(c[0])
    &&& !is_space(c.last())
    &&& forall|i: int| 0 <= i < c.len() ==> !is_star(#[trigger] c[i])
}

/// The text `c * X^d`.
pub open spec fn product_text(c: Seq<char>, degree: u8) -> Seq<char> {
    c + seq![' ', '*', ' ', 'X', '^'] + decimal(degree as nat)
}

/// A text without multiplication signs is one open piece.
proof fn lemma_scanned_plain(a: Seq<char>)
    requires
        forall|i: int| 0 <= i < a.len() ==> !is_star(#[trigger] a[i]),
    ensures
        scanned(a).0 == Seq::<Seq<char>>::empty(),
        scanned(a).1 == a,
    decreases a.len(),
{
    if a.len() > 0 {
        lemma_scanned_plain(a.drop_last());
        assert(a.drop_last().push(a.last()) == a);
    } else {
        assert(a == Seq::<char>::empty());
    }
}

/// Characters other than multiplication signs extend the open piece.
proof fn lemma_scanned_append(p: Seq<char>, b: Seq<char>)
    requires
        forall|i: int| 0 <= i < b.len() ==> !is_star(#[trigger] b[i]),
    ensures
        scanned(p + b).0 == scanned(p).0,
        scanned(p + b).1 == scanned(p).1 + b,
    decreases b.len(),
{
    if b.len() > 0 {
        lemma_scanned_append(p, b.drop_last());
        assert((p + b).drop_last() == p + b.drop_last());
        assert((p + b).last() == b.last());
        assert((scanned(p).1 + b.drop_last()).push(b.last()) == scanned(p).1 + b);
    } else {
        assert(p + b == p);
        assert(scanned(p).1 + b == scanned(p).1);
    }
}

/// The decimal numeral of a number is made of digits and denotes it.
pub proof fn lemma_decimal_denotes(n: nat)
    ensures
        decimal(n).len() > 0,
        all_digits(decimal(n)),
        number(decimal(n)) == n,
    decreases n,
{
    if n < 10 {
        assert(is_digit(digit(n)) && digit_value(digit(n)) == n);
        assert(decimal(n).drop_last() == Seq::<char>::empty());
        assert(number(decimal(n)) == number(decimal(n).drop_last()) * 10 + digit_value(
            decimal(n).last(),
        ));
    } else {
        lemma_decimal_denotes(n / 10);
        let d = n % 10;
        assert(is_digit(digit(d)) && digit_value(digit(d)) == d);
        assert(decimal(n).drop_last() == decimal(n / 10));
        assert(decimal(n).last() == digit(d));
    }
}

/// The term `c * X^d` is read as the coefficient that `c` is read as and
/// the degree `d`, for every coefficient text `c` that is read as a
/// finite number and every degree `d`.
pub proof fn lemma_round_trip<N: Fn(String) -> Option<Coefficient>>(
    c: Seq<char>,
    degree: u8,
    value: Coefficient,
    reading: N,
)
    requires
        is_coefficient_text(c),
        read_by(reading, c) == Some(value),
        value.is_finite(),
    ensures
        term_text(product_text(c, degree)) == Ok::<(Seq<char>, Seq<char>), Fault>(
            (c, decimal(degree as nat)),
        ),
        parsed_term(product_text(c, degree), reading) == Ok::<Term, Fault>(
            Term { degree, coefficient: value },
        ),
{
    let digits = decimal(degree as nat);
    lemma_decimal_denotes(degree as nat);
    let s = product_text(c, degree);
    let a = c + seq![' '];
    let x = seq!['X', '^'] + digits;
    let b = seq![' '] + x;
    let p = a + seq!['*'];
    assert(s == p + b);
    assert forall|i: int| 0 <= i < digits.len() implies !is_star(#[trigger] digits[i])
        && !is_space(digits[i]) by {
        assert(is_digit(digits[i]));
    }
    assert forall|i: int| 0 <= i < a.len() implies !is_star(#[trigger] a[i]) by {
        if i < c.len() {
            assert(a[i] == c[i]);
        }
    }
    assert forall|i: int| 0 <= i < b.len() implies !is_star(#[trigger] b[i]) by {
        if i >= 3 {
            assert(b[i] == digits[i - 3]);
        }
    }
    // no stray sign, no doubled sign
    assert(s[0] == c[0]);
    assert(s.last() == digits.last());
    assert(!has_stray(s));
    assert forall|i: int| 0 <= i < s.len() && s[i] == '*' implies i == a.len() by {
        if i < a.len() {
            assert(s[i] == a[i]);
        } else if i > a.len() {
            assert(s[i] == b[i - a.len() - 1]);
        }
    }
    assert(!has_double(s));
    // the two fragments
    lemma_scanned_plain(a);
    assert(p.drop_last() == a);
    assert(p.last() == '*');
    assert(a.drop_last() == c);
    assert(trim_start(a) == a);
    assert(trim_end(a) == trim_end(c));
    assert(trim_end(c) == c);
    assert(trimmed(a) == c);
    assert(scanned(p).0 == kept(Seq::<Seq<char>>::empty(), a));
    assert(scanned(p).1 == Seq::<char>::empty());
    lemma_scanned_append(p, b);
    assert(scanned(s).1 == b);
    assert(b.skip(1) == x);
    assert(trim_start(b) == trim_start(x));
    assert(x[0] == 'X');
    assert(trim_start(x) == x);
    assert(x.last() == digits.last());
    assert(trim_end(x) == x);
    assert(trimmed(b) == x);
    let fs = fragments(s);
    assert(fs == seq![c, x]);
    assert(components(fs) == Some((c, x)));
    assert(x != seq!['X']);
    assert(variable(x) == x);
    assert(x.take(2) == seq!['X', '^']);
    assert(starts_with(x, seq!['X', '^']));
    assert(x.skip(2) == digits);
    // the degree
    assert(digits[0] != '+') by {
        assert(is_digit(digits[0]));
    }
    assert(degree_value(digits) == Some(degree));
}

} // verus!
