//! The two written forms of a term and of a polynomial.

use vstd::prelude::*;
use crate::coefficient::{is_display, lemma_shown, shown_by, shows_text, Coefficient, Sign};
use crate::polynomial::{ascending, by_degree, Polynomial};
use crate::term::Term;
use crate::text::{chars_of, decimal, push_all, push_decimal, string_of};

verus! {

/// The text `X^` and the degree.
pub open spec fn power(degree: u8) -> Seq<char> {
    seq!['X', '^'] + decimal(degree as nat)
}

/// The unknown as the free form writes it: `X` for degree one.
pub open spec fn unknown(degree: u8) -> Seq<char> {
    if degree == 1 {
        seq!['X']
    } else {
        power(degree)
    }
}

/// The coefficient is zero or above.
pub open spec fn is_non_negative(c: Coefficient) -> bool {
    c.sign() == Sign::Zero || c.sign() == Sign::Positive
}

/// The full form of a term: `c * X^d`, with the minus sign of a negative
/// coefficient in front, set off by a space unless the degree is zero.
pub open spec fn full_form<D: Fn(Coefficient) -> String>(t: Term, show: D) -> Seq<char> {
    if is_non_negative(t.coefficient) {
        shown_by(show, t.coefficient) + seq![' ', '*', ' '] + power(t.degree)
    } else if t.degree == 0 {
        seq!['-'] + shown_by(show, t.coefficient.negated()) + seq![' ', '*', ' '] + power(
            t.degree,
        )
    } else {
        seq!['-', ' '] + shown_by(show, t.coefficient.negated()) + seq![' ', '*', ' '] + power(
            t.degree,
        )
    }
}

/// The free form of a term: the bare coefficient at degree zero; otherwise
/// the unknown alone for the coefficient one, with `- ` in front for minus
/// one, and `c * X^d` for any other coefficient.
pub open spec fn free_form<D: Fn(Coefficient) -> String>(t: Term, show: D) -> Seq<char> {
    if t.degree == 0 {
        shown_by(show, t.coefficient)
    } else if t.coefficient.is_one() {
        unknown(t.degree)
    } else if t.coefficient.is_minus_one() {
        seq!['-', ' '] + unknown(t.degree)
    } else if t.coefficient.sign() == Sign::Negative {
        seq!['-', ' '] + shown_by(show, t.coefficient.negated()) + seq![' ', '*', ' '] + unknown(
            t.degree,
        )
    } else {
        shown_by(show, t.coefficient) + seq![' ', '*', ' '] + unknown(t.degree)
    }
}

/// The display has a text for the number that the form of the term
/// shows, where it shows one.
pub open spec fn form_shown<D: Fn(Coefficient) -> String>(t: Term, full: bool, show: D) -> bool {
    if full {
        if is_non_negative(t.coefficient) {
            shows_text(show, t.coefficient)
        } else {
            shows_text(show, t.coefficient.negated())
        }
    } else if t.degree == 0 {
        shows_text(show, t.coefficient)
    } else if t.coefficient.is_one() || t.coefficient.is_minus_one() {
        true
    } else if t.coefficient.sign() == Sign::Negative {
        shows_text(show, t.coefficient.negated())
    } else {
        shows_text(show, t.coefficient)
    }
}

/// The term is written in a polynomial: it has the degree zero or a
/// coefficient that is negative or positive.
pub open spec fn is_written(t: Term) -> bool {
    t.degree == 0 || t.coefficient.sign() == Sign::Negative || t.coefficient.sign()
        == Sign::Positive
}

/// The display has a text for every number that the written polynomial
/// shows.
pub open spec fn all_shown<D: Fn(Coefficient) -> String>(s: Seq<Term>, full: bool, show: D) -> bool {
    forall|i: int| 0 <= i < s.len() && is_written(#[trigger] s[i]) ==> form_shown(s[i], full, show)
}

/// One of the two forms of a term.
pub open spec fn form_of<D: Fn(Coefficient) -> String>(t: Term, full: bool, show: D) -> Seq<char> {
    if full {
        full_form(t, show)
    } else {
        free_form(t, show)
    }
}

/// What a term adds to the written polynomial: a term of degree zero
/// stands as it is; above that, a negative term follows a space, a positive
/// one follows ` + `, and any other is left out.
pub open spec fn joint<D: Fn(Coefficient) -> String>(t: Term, full: bool, show: D) -> Seq<char> {
    if t.degree == 0 {
        form_of(t, full, show)
    } else if t.coefficient.sign() == Sign::Negative {
        seq![' '] + form_of(t, full, show)
    } else if t.coefficient.sign() == Sign::Positive {
        seq![' ', '+', ' '] + form_of(t, full, show)
    } else {
        Seq::<char>::empty()
    }
}

/// The terms written one after the other.
pub open spec fn joined<D: Fn(Coefficient) -> String>(s: Seq<Term>, full: bool, show: D) -> Seq<
    char,
>
    decreases s.len(),
{
    if s.len() == 0 {
        Seq::<char>::empty()
    } else {
        joined(s.drop_last(), full, show) + joint(s.last(), full, show)
    }
}

/// The equation `terms = 0`, the terms by ascending degree; `0 = 0` where
/// no term is written.
pub open spec fn written<D: Fn(Coefficient) -> String>(s: Seq<Term>, full: bool, show: D) -> Seq<
    char,
> {
    let body = joined(by_degree(s), full, show);
    if body.len() == 0 {
        seq!['0', ' ', '=', ' ', '0']
    } else {
        body + seq![' ', '=', ' ', '0']
    }
}

fn push_times(out: &mut Vec<char>)
    ensures
        final(out)@ == old(out)@ + seq![' ', '*', ' '],
{
    out.push(' ');
    out.push('*');
    out.push(' ');
    assert(out@ == old(out)@ + seq![' ', '*', ' ']);
}

fn push_minus(out: &mut Vec<char>)
    ensures
        final(out)@ == old(out)@ + seq!['-', ' '],
{
    out.push('-');
    out.push(' ');
    assert(out@ == old(out)@ + seq!['-', ' ']);
}

fn push_power(out: &mut Vec<char>, degree: u8)
    ensures
        final(out)@ == old(out)@ + power(degree),
{
    out.push('X');
    out.push('^');
    push_decimal(out, degree as u64);
    assert(out@ == old(out)@ + power(degree));
}

fn push_unknown(out: &mut Vec<char>, degree: u8)
    ensures
        final(out)@ == old(out)@ + unknown(degree),
{
    if degree == 1 {
        out.push('X');
        assert(out@ == old(out)@ + seq!['X']);
    } else {
        push_power(out, degree);
    }
}

/// Appends a coefficient as `show` writes it.
pub(crate) fn push_shown<D: Fn(Coefficient) -> String>(
    out: &mut Vec<char>,
    c: Coefficient,
    show: &D,
)
    requires
        is_display(*show),
    ensures
        final(out)@ == old(out)@ + shown_by(*show, c),
        shows_text(*show, c),
{
    let s: String = show(c);
    proof {
        lemma_shown(*show, c, s);
    }
    let v = chars_of(s.as_str());
    push_all(out, &v);
}

fn push_full<D: Fn(Coefficient) -> String>(out: &mut Vec<char>, t: Term, show: &D)
    requires
        is_display(*show),
    ensures
        final(out)@ == old(out)@ + full_form(t, *show),
        form_shown(t, true, *show),
{
    let sign = t.coefficient.classify();
    if sign == Sign::Zero || sign == Sign::Positive {
        push_shown(out, t.coefficient, show);
    } else if t.degree == 0 {
        out.push('-');
        push_shown(out, t.coefficient.negate(), show);
    } else {
        push_minus(out);
        push_shown(out, t.coefficient.negate(), show);
    }
    push_times(out);
    push_power(out, t.degree);
    assert(out@ == old(out)@ + full_form(t, *show));
}

fn push_free<D: Fn(Coefficient) -> String>(out: &mut Vec<char>, t: Term, show: &D)
    requires
        is_display(*show),
    ensures
        final(out)@ == old(out)@ + free_form(t, *show),
        form_shown(t, false, *show),
{
    if t.degree == 0 {
        push_shown(out, t.coefficient, show);
    } else if t.coefficient.unit() {
        push_unknown(out, t.degree);
    } else if t.coefficient.minus_unit() {
        push_minus(out);
        push_unknown(out, t.degree);
        assert(out@ == old(out)@ + free_form(t, *show));
    } else if t.coefficient.classify() == Sign::Negative {
        push_minus(out);
        push_shown(out, t.coefficient.negate(), show);
        push_times(out);
        push_unknown(out, t.degree);
        assert(out@ == old(out)@ + free_form(t, *show));
    } else {
        push_shown(out, t.coefficient, show);
        push_times(out);
        push_unknown(out, t.degree);
        assert(out@ == old(out)@ + free_form(t, *show));
    }
}

fn push_joint<D: Fn(Coefficient) -> String>(out: &mut Vec<char>, t: Term, full: bool, show: &D)
    requires
        is_display(*show),
    ensures
        final(out)@ == old(out)@ + joint(t, full, *show),
        is_written(t) ==> form_shown(t, full, *show),
{
    let sign = t.coefficient.classify();
    if t.degree != 0 {
        if sign == Sign::Negative {
            out.push(' ');
        } else if sign == Sign::Positive {
            out.push(' ');
            out.push('+');
            out.push(' ');
        } else {
            assert(out@ == old(out)@ + Seq::<char>::empty());
            return ;
        }
    }
    let ghost lead = out@;
    if full {
        push_full(out, t, show);
    } else {
        push_free(out, t, show);
    }
    proof {
        if t.degree == 0 {
        } else if sign == Sign::Negative {
            assert(lead == old(out)@ + seq![' ']);
            assert(out@ == old(out)@ + (seq![' '] + form_of(t, full, *show)));
        } else {
            assert(lead == old(out)@ + seq![' ', '+', ' ']);
            assert(out@ == old(out)@ + (seq![' ', '+', ' '] + form_of(t, full, *show)));
        }
    }
}

impl Term {
    /// The full form, `c * X^d`; `show` writes a coefficient.
    pub fn to_full_form<D: Fn(Coefficient) -> String>(&self, show: &D) -> (s: String)
        requires
            is_display(*show),
        ensures
            s@ == full_form(*self, *show),
            form_shown(*self, true, *show),
    {
        let mut out: Vec<char> = Vec::new();
        push_full(&mut out, *self, show);
        assert(out@ == full_form(*self, *show));
        string_of(out)
    }

    /// The free form, in which a coefficient of one is left out; `show`
    /// writes a coefficient.
    pub fn to_free_form<D: Fn(Coefficient) -> String>(&self, show: &D) -> (s: String)
        requires
            is_display(*show),
        ensures
            s@ == free_form(*self, *show),
            form_shown(*self, false, *show),
    {
        let mut out: Vec<char> = Vec::new();
        push_free(&mut out, *self, show);
        assert(out@ == free_form(*self, *show));
        string_of(out)
    }
}

impl Polynomial {
    fn print<D: Fn(Coefficient) -> String>(&mut self, full: bool, show: &D) -> (s: String)
        requires
            is_display(*show),
        ensures
            final(self).terms@ == by_degree(old(self).terms@),
            ascending(final(self).terms@),
            old(self).well_formed() ==> final(self).well_formed(),
            s@ == written(old(self).terms@, full, *show),
            all_shown(final(self).terms@, full, *show),
    {
        self.sort_by_degree();
        let mut out: Vec<char> = Vec::new();
        let mut i: usize = 0;
        while i < self.terms.len()
            invariant
                i <= self.terms.len(),
                is_display(*show),
                out@ == joined(self.terms@.take(i as int), full, *show),
                all_shown(self.terms@.take(i as int), full, *show),
            decreases self.terms.len() - i,
        {
            proof {
                assert(self.terms@.take(i + 1).drop_last() == self.terms@.take(i as int));
            }
            push_joint(&mut out, self.terms[i], full, show);
            i += 1;
        }
        assert(self.terms@.take(i as int) == self.terms@);
        if out.len() == 0 {
            out.push('0');
        }
        out.push(' ');
        out.push('=');
        out.push(' ');
        out.push('0');
        assert(out@ == written(old(self).terms@, full, *show));
        string_of(out)
    }

    /// Orders the terms by degree and writes the equation `terms = 0` with
    /// every term in its full form.
    pub fn print_reduced_form<D: Fn(Coefficient) -> String>(&mut self, show: &D) -> (s: String)
        requires
            is_display(*show),
        ensures
            final(self).terms@ == by_degree(old(self).terms@),
            ascending(final(self).terms@),
            old(self).well_formed() ==> final(self).well_formed(),
            s@ == written(old(self).terms@, true, *show),
            all_shown(final(self).terms@, true, *show),
    {
        self.print(true, show)
    }

    /// Orders the terms by degree and writes the equation `terms = 0` with
    /// every term in its free form.
    pub fn print_free_form<D: Fn(Coefficient) -> String>(&mut self, show: &D) -> (s: String)
        requires
            is_display(*show),
        ensures
            final(self).terms@ == by_degree(old(self).terms@),
            ascending(final(self).terms@),
            old(self).well_formed() ==> final(self).well_formed(),
            s@ == written(old(self).terms@, false, *show),
            all_shown(final(self).terms@, false, *show),
    {
        self.print(false, show)
    }
}

} // verus!
