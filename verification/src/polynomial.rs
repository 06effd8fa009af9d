//! Polynomials as sequences of monomials, at most one for each degree.

use vstd::prelude::*;
use crate::coefficient::{applied, is_operation, yields, Coefficient};
use crate::term::Term;

verus! {

/// A sequence of terms. Insertion keeps at most one term for each degree.
#[derive(Debug, Clone, PartialEq)]
pub struct Polynomial {
    pub terms: Vec<Term>,
}

/// No two terms share a degree.
pub open spec fn distinct_degrees(s: Seq<Term>) -> bool {
    forall|i: int, j: int|
        0 <= i < j < s.len() ==> (#[trigger] s[i]).degree != (#[trigger] s[j]).degree
}

/// The degrees do not fall from one term to the next.
pub open spec fn ascending(s: Seq<Term>) -> bool {
    forall|i: int, j: int|
        0 <= i < j < s.len() ==> (#[trigger] s[i]).degree <= (#[trigger] s[j]).degree
}

/// Some term has this degree.
pub open spec fn has_degree(s: Seq<Term>, degree: u8) -> bool {
    exists|i: int| 0 <= i < s.len() && (#[trigger] s[i]).degree == degree
}

/// `i` is the position of the first term of this degree.
pub open spec fn first_at(s: Seq<Term>, degree: u8, i: int) -> bool {
    &&& 0 <= i < s.len()
    &&& s[i].degree == degree
    &&& forall|j: int| 0 <= j < i ==> (#[trigger] s[j]).degree != degree
}

/// The position of the first term of this degree, where there is one.
pub open spec fn position(s: Seq<Term>, degree: u8) -> int {
    choose|i: int| first_at(s, degree, i)
}

/// The sequence after one insertion: the term's coefficient is combined
/// into the first term of its degree, or the term is appended.
pub open spec fn inserted<F: Fn(Coefficient, Coefficient) -> Coefficient>(
    s: Seq<Term>,
    t: Term,
    sum: F,
) -> Seq<Term> {
    if has_degree(s, t.degree) {
        let i = position(s, t.degree);
        s.update(
            i,
            Term { degree: t.degree, coefficient: applied(sum, s[i].coefficient, t.coefficient) },
        )
    } else {
        s.push(t)
    }
}

/// The sum that one insertion takes, where it takes one, has a result.
pub open spec fn insertion_yields<F: Fn(Coefficient, Coefficient) -> Coefficient>(
    s: Seq<Term>,
    t: Term,
    sum: F,
) -> bool {
    has_degree(s, t.degree) ==> yields(sum, s[position(s, t.degree)].coefficient, t.coefficient)
}

/// Every sum that the insertion of the terms of `ts` takes has a result.
pub open spec fn insertions_yield<F: Fn(Coefficient, Coefficient) -> Coefficient>(
    s: Seq<Term>,
    ts: Seq<Term>,
    sum: F,
) -> bool
    decreases ts.len(),
{
    ts.len() > 0 ==> insertions_yield(s, ts.drop_last(), sum) && insertion_yields(
        inserted_all(s, ts.drop_last(), sum),
        ts.last(),
        sum,
    )
}

/// Every sum that the difference takes has a result.
pub open spec fn difference_yields<F: Fn(Coefficient, Coefficient) -> Coefficient>(
    lhs: Seq<Term>,
    rhs: Seq<Term>,
    sum: F,
) -> bool {
    &&& insertions_yield(Seq::<Term>::empty(), lhs, sum)
    &&& insertions_yield(inserted_all(Seq::<Term>::empty(), lhs, sum), negated_terms(rhs), sum)
}

/// The sequence after inserting each term of `ts` in turn.
pub open spec fn inserted_all<F: Fn(Coefficient, Coefficient) -> Coefficient>(
    s: Seq<Term>,
    ts: Seq<Term>,
    sum: F,
) -> Seq<Term>
    decreases ts.len(),
{
    if ts.len() == 0 {
        s
    } else {
        inserted(inserted_all(s, ts.drop_last(), sum), ts.last(), sum)
    }
}

/// Every term with the opposite sign.
pub open spec fn negated_terms(ts: Seq<Term>) -> Seq<Term> {
    Seq::new(ts.len(), |i: int| ts[i].negated())
}

/// The terms of `lhs - rhs`: the terms of `lhs` inserted into the empty
/// sequence, then those of `rhs` with the opposite sign.
pub open spec fn difference<F: Fn(Coefficient, Coefficient) -> Coefficient>(
    lhs: Seq<Term>,
    rhs: Seq<Term>,
    sum: F,
) -> Seq<Term> {
    inserted_all(inserted_all(Seq::<Term>::empty(), lhs, sum), negated_terms(rhs), sum)
}

/// The largest degree among the terms whose coefficient is not zero, and
/// zero where there is none.
pub open spec fn effective_degree(s: Seq<Term>) -> u8
    decreases s.len(),
{
    if s.len() == 0 {
        0
    } else {
        let rest = effective_degree(s.drop_last());
        if !s.last().coefficient.is_zero() && s.last().degree > rest {
            s.last().degree
        } else {
            rest
        }
    }
}

/// The coefficient at a degree: that of the last term of the degree, and
/// positive zero where there is none.
pub open spec fn coefficient_at(s: Seq<Term>, degree: u8) -> Coefficient
    decreases s.len(),
{
    if s.len() == 0 {
        Coefficient { bits: 0 }
    } else if s.last().degree == degree {
        s.last().coefficient
    } else {
        coefficient_at(s.drop_last(), degree)
    }
}

/// The terms of one degree, in the order in which they stand.
pub open spec fn of_degree(s: Seq<Term>, degree: int) -> Seq<Term>
    decreases s.len(),
{
    if s.len() == 0 {
        Seq::<Term>::empty()
    } else if s.last().degree == degree {
        of_degree(s.drop_last(), degree).push(s.last())
    } else {
        of_degree(s.drop_last(), degree)
    }
}

/// The terms of degree below `bound`, by ascending degree.
pub open spec fn below_degree(s: Seq<Term>, bound: int) -> Seq<Term>
    decreases bound,
{
    if bound <= 0 {
        Seq::<Term>::empty()
    } else {
        below_degree(s, bound - 1) + of_degree(s, bound - 1)
    }
}

/// The terms by ascending degree; terms of one degree keep their order.
pub open spec fn by_degree(s: Seq<Term>) -> Seq<Term> {
    below_degree(s, 256)
}

impl Polynomial {
    /// At most one term stands for each degree.
    pub open spec fn well_formed(&self) -> bool {
        distinct_degrees(self.terms@)
    }

    /// The polynomial without terms.
    pub fn new() -> (p: Polynomial)
        ensures
            p.terms@ == Seq::<Term>::empty(),
            p.well_formed(),
    {
        Polynomial { terms: Vec::new() }
    }

    /// The position of the first term of the given degree.
    pub fn find(&self, degree: u8) -> (r: Option<usize>)
        ensures
            match r {
                Some(i) => first_at(self.terms@, degree, i as int),
                None => !has_degree(self.terms@, degree),
            },
            r.is_some() ==> r.unwrap() as int == position(self.terms@, degree),
    {
        let mut i: usize = 0;
        while i < self.terms.len()
            invariant
                i <= self.terms.len(),
                forall|j: int| 0 <= j < i ==> (#[trigger] self.terms@[j]).degree != degree,
            decreases self.terms.len() - i,
        {
            if self.terms[i].degree == degree {
                proof {
                    lemma_first_is_position(self.terms@, degree, i as int);
                }
                return Some(i);
            }
            i += 1;
        }
        None
    }

    /// Inserts a term: where a term of its degree is present the two
    /// coefficients are combined by `sum`, existing one first; otherwise the
    /// term is appended.
    pub fn push_term<F: Fn(Coefficient, Coefficient) -> Coefficient>(&mut self, term: Term, sum: &F)
        requires
            is_operation(*sum),
        ensures
            final(self).terms@ == inserted(old(self).terms@, term, *sum),
            insertion_yields(old(self).terms@, term, *sum),
            old(self).well_formed() ==> final(self).well_formed(),
    {
        proof {
            if old(self).well_formed() {
                lemma_inserted_distinct(old(self).terms@, term, *sum);
            }
        }
        match self.find(term.degree) {
            Some(i) => {
                let present: Coefficient = self.terms[i].coefficient;
                let merged: Coefficient = sum(present, term.coefficient);
                self.terms.set(i, Term { degree: term.degree, coefficient: merged });
            },
            None => {
                self.terms.push(term);
            },
        }
    }

    /// The difference `self - other`: every term of `self` is inserted into
    /// an empty polynomial, then every term of `other` with its sign flipped.
    pub fn sub<F: Fn(Coefficient, Coefficient) -> Coefficient>(
        self,
        other: Polynomial,
        sum: &F,
    ) -> (r: Polynomial)
        requires
            is_operation(*sum),
        ensures
            r.terms@ == difference(self.terms@, other.terms@, *sum),
            difference_yields(self.terms@, other.terms@, *sum),
            r.well_formed(),
    {
        proof {
            lemma_difference_distinct(self.terms@, other.terms@, *sum);
        }
        let mut result = Polynomial::new();
        let mut i: usize = 0;
        while i < self.terms.len()
            invariant
                i <= self.terms.len(),
                is_operation(*sum),
                result.terms@ == inserted_all(Seq::<Term>::empty(), self.terms@.take(i as int), *sum),
                insertions_yield(Seq::<Term>::empty(), self.terms@.take(i as int), *sum),
            decreases self.terms.len() - i,
        {
            proof {
                assert(self.terms@.take(i + 1).drop_last() == self.terms@.take(i as int));
            }
            result.push_term(self.terms[i], sum);
            i += 1;
        }
        assert(self.terms@.take(i as int) == self.terms@);
        let ghost left = result.terms@;
        let ghost flipped = negated_terms(other.terms@);
        let mut k: usize = 0;
        while k < other.terms.len()
            invariant
                k <= other.terms.len(),
                is_operation(*sum),
                flipped == negated_terms(other.terms@),
                result.terms@ == inserted_all(left, flipped.take(k as int), *sum),
                insertions_yield(left, flipped.take(k as int), *sum),
            decreases other.terms.len() - k,
        {
            proof {
                assert(flipped.take(k + 1).drop_last() == flipped.take(k as int));
            }
            let t: Term = other.terms[k];
            result.push_term(Term { degree: t.degree, coefficient: t.coefficient.negate() }, sum);
            k += 1;
        }
        assert(flipped.take(k as int) == flipped);
        result
    }

    /// The largest degree among the terms with a coefficient other than
    /// zero; zero where every coefficient is zero or no term is present.
    pub fn get_degree(&self) -> (d: u8)
        ensures
            d == effective_degree(self.terms@),
            forall|i: int|
                0 <= i < self.terms@.len() && !(#[trigger] self.terms@[i]).coefficient.is_zero()
                    ==> self.terms@[i].degree <= d,
            d == 0 || exists|i: int|
                0 <= i < self.terms@.len() && !(#[trigger] self.terms@[i]).coefficient.is_zero()
                    && self.terms@[i].degree == d,
    {
        let mut d: u8 = 0;
        let mut i: usize = 0;
        while i < self.terms.len()
            invariant
                i <= self.terms.len(),
                d == effective_degree(self.terms@.take(i as int)),
            decreases self.terms.len() - i,
        {
            proof {
                assert(self.terms@.take(i + 1).drop_last() == self.terms@.take(i as int));
            }
            let t: Term = self.terms[i];
            if !t.coefficient.zero_valued() && t.degree > d {
                d = t.degree;
            }
            i += 1;
        }
        proof {
            assert(self.terms@.take(i as int) == self.terms@);
            lemma_effective_degree(self.terms@);
        }
        d
    }

    /// The coefficient at a degree, zero where no term has the degree.
    pub fn coefficient(&self, degree: u8) -> (c: Coefficient)
        ensures
            c == coefficient_at(self.terms@, degree),
    {
        let mut c = Coefficient::zero();
        let mut i: usize = 0;
        while i < self.terms.len()
            invariant
                i <= self.terms.len(),
                c == coefficient_at(self.terms@.take(i as int), degree),
            decreases self.terms.len() - i,
        {
            proof {
                assert(self.terms@.take(i + 1).drop_last() == self.terms@.take(i as int));
            }
            if self.terms[i].degree == degree {
                c = self.terms[i].coefficient;
            }
            i += 1;
        }
        assert(self.terms@.take(i as int) == self.terms@);
        c
    }

    /// Orders the terms by ascending degree, keeping the order of terms
    /// that share a degree.
    pub fn sort_by_degree(&mut self)
        ensures
            final(self).terms@ == by_degree(old(self).terms@),
            ascending(final(self).terms@),
            old(self).well_formed() ==> final(self).well_formed(),
    {
        proof {
            lemma_by_degree_ascending(self.terms@);
        }
        let mut sorted: Vec<Term> = Vec::new();
        let mut d: u16 = 0;
        while d < 256
            invariant
                d <= 256,
                sorted@ == below_degree(self.terms@, d as int),
            decreases 256 - d,
        {
            let mut i: usize = 0;
            while i < self.terms.len()
                invariant
                    i <= self.terms.len(),
                    d < 256,
                    sorted@ == below_degree(self.terms@, d as int) + of_degree(
                        self.terms@.take(i as int),
                        d as int,
                    ),
                decreases self.terms.len() - i,
            {
                proof {
                    assert(self.terms@.take(i + 1).drop_last() == self.terms@.take(i as int));
                }
                let t: Term = self.terms[i];
                if t.degree as u16 == d {
                    sorted.push(t);
                }
                i += 1;
            }
            assert(self.terms@.take(i as int) == self.terms@);
            d += 1;
        }
        self.terms = sorted;
    }
}

/// The first position of a degree is unique.
pub proof fn lemma_first_is_position(s: Seq<Term>, degree: u8, i: int)
    requires
        first_at(s, degree, i),
    ensures
        position(s, degree) == i,
        has_degree(s, degree),
{
    let p = position(s, degree);
    assert(first_at(s, degree, p));
    if p < i {
        assert(s[p].degree != degree);
    }
    if i < p {
        assert(s[i].degree != degree);
    }
}

/// The effective degree bounds the degree of every term with a non-zero
/// coefficient, and is the degree of such a term unless it is zero.
pub proof fn lemma_effective_degree(s: Seq<Term>)
    ensures
        forall|i: int|
            0 <= i < s.len() && !(#[trigger] s[i]).coefficient.is_zero() ==> s[i].degree
                <= effective_degree(s),
        effective_degree(s) == 0 || exists|i: int|
            0 <= i < s.len() && !(#[trigger] s[i]).coefficient.is_zero() && s[i].degree
                == effective_degree(s),
    decreases s.len(),
{
    if s.len() > 0 {
        let rest = s.drop_last();
        lemma_effective_degree(rest);
        assert forall|i: int| 0 <= i < s.len() && !(#[trigger] s[i]).coefficient.is_zero() implies s[i].degree
            <= effective_degree(s) by {
            if i < s.len() - 1 {
                assert(s[i] == rest[i]);
            }
        }
        if effective_degree(s) != 0 {
            if effective_degree(s) == effective_degree(rest) {
                let i = choose|i: int|
                    0 <= i < rest.len() && !(#[trigger] rest[i]).coefficient.is_zero()
                        && rest[i].degree == effective_degree(rest);
                assert(s[i] == rest[i]);
            } else {
                assert(s[s.len() - 1] == s.last());
            }
        }
    }
}

/// In a sequence with distinct degrees, the coefficient at a degree is
/// that of the one term of the degree.
pub proof fn lemma_coefficient_of_position(s: Seq<Term>, i: int)
    requires
        distinct_degrees(s),
        0 <= i < s.len(),
    ensures
        coefficient_at(s, s[i].degree) == s[i].coefficient,
        position(s, s[i].degree) == i,
        has_degree(s, s[i].degree),
    decreases s.len(),
{
    lemma_first_is_position(s, s[i].degree, i);
    if i < s.len() - 1 {
        let rest = s.drop_last();
        assert(rest[i] == s[i]);
        lemma_coefficient_of_position(rest, i);
    }
}

/// Insertion keeps the degrees distinct, and leaves a term of the
/// inserted degree.
pub proof fn lemma_inserted_distinct<F: Fn(Coefficient, Coefficient) -> Coefficient>(
    s: Seq<Term>,
    t: Term,
    sum: F,
)
    requires
        distinct_degrees(s),
    ensures
        distinct_degrees(inserted(s, t, sum)),
        has_degree(inserted(s, t, sum), t.degree),
        has_degree(s, t.degree) ==> inserted(s, t, sum).len() == s.len(),
        !has_degree(s, t.degree) ==> inserted(s, t, sum) == s.push(t),
{
    let r = inserted(s, t, sum);
    if has_degree(s, t.degree) {
        let w = choose|i: int| 0 <= i < s.len() && (#[trigger] s[i]).degree == t.degree;
        lemma_coefficient_of_position(s, w);
        assert(r[w].degree == t.degree);
        assert forall|i: int, j: int| 0 <= i < j < r.len() implies (#[trigger] r[i]).degree != (
        #[trigger] r[j]).degree by {
            assert(r[i].degree == s[i].degree);
            assert(r[j].degree == s[j].degree);
        }
    } else {
        assert(r[s.len() as int].degree == t.degree);
        assert forall|i: int, j: int| 0 <= i < j < r.len() implies (#[trigger] r[i]).degree != (
        #[trigger] r[j]).degree by {
            assert(r[i] == s[i]);
            if j < s.len() {
                assert(r[j] == s[j]);
            }
        }
    }
}

/// Insertion of several terms keeps the degrees distinct.
pub proof fn lemma_inserted_all_distinct_degrees<F: Fn(Coefficient, Coefficient) -> Coefficient>(
    s: Seq<Term>,
    ts: Seq<Term>,
    sum: F,
)
    requires
        distinct_degrees(s),
    ensures
        distinct_degrees(inserted_all(s, ts, sum)),
    decreases ts.len(),
{
    if ts.len() > 0 {
        lemma_inserted_all_distinct_degrees(s, ts.drop_last(), sum);
        lemma_inserted_distinct(inserted_all(s, ts.drop_last(), sum), ts.last(), sum);
    }
}

/// The terms of a difference have distinct degrees.
pub proof fn lemma_difference_distinct<F: Fn(Coefficient, Coefficient) -> Coefficient>(
    lhs: Seq<Term>,
    rhs: Seq<Term>,
    sum: F,
)
    ensures
        distinct_degrees(difference(lhs, rhs, sum)),
{
    lemma_inserted_all_distinct_degrees(Seq::<Term>::empty(), lhs, sum);
    lemma_inserted_all_distinct_degrees(
        inserted_all(Seq::<Term>::empty(), lhs, sum),
        negated_terms(rhs),
        sum,
    );
}

/// The terms picked for a degree have that degree, and there is one only
/// where the sequence holds the degree.
pub proof fn lemma_of_degree(s: Seq<Term>, degree: int)
    ensures
        forall|k: int|
            0 <= k < of_degree(s, degree).len() ==> (#[trigger] of_degree(s, degree)[k]).degree
                == degree,
        of_degree(s, degree).len() > 0 ==> exists|i: int|
            0 <= i < s.len() && (#[trigger] s[i]).degree == degree,
        distinct_degrees(s) ==> of_degree(s, degree).len() <= 1,
    decreases s.len(),
{
    if s.len() > 0 {
        let rest = s.drop_last();
        lemma_of_degree(rest, degree);
        if of_degree(rest, degree).len() > 0 {
            let i = choose|i: int| 0 <= i < rest.len() && (#[trigger] rest[i]).degree == degree;
            assert(s[i] == rest[i]);
        }
        if s.last().degree == degree {
            assert(s[s.len() - 1].degree == degree);
        }
        if distinct_degrees(s) {
            assert forall|i: int, j: int| 0 <= i < j < rest.len() implies (#[trigger] rest[i]).degree
                != (#[trigger] rest[j]).degree by {
                assert(rest[i] == s[i] && rest[j] == s[j]);
            }
            if s.last().degree == degree && of_degree(rest, degree).len() > 0 {
                let i = choose|i: int| 0 <= i < rest.len() && (#[trigger] rest[i]).degree == degree;
                assert(s[i] == rest[i]);
                assert(s[i].degree != s[s.len() - 1].degree);
            }
        }
    }
}

/// The terms below a degree bound stand by ascending degree; where the
/// degrees of the sequence are distinct, so are theirs.
pub proof fn lemma_below_degree(s: Seq<Term>, bound: int)
    ensures
        forall|k: int|
            0 <= k < below_degree(s, bound).len() ==> (#[trigger] below_degree(s, bound)[k]).degree
                < bound,
        forall|i: int, j: int|
            0 <= i < j < below_degree(s, bound).len() ==> (#[trigger] below_degree(
                s,
                bound,
            )[i]).degree <= (#[trigger] below_degree(s, bound)[j]).degree,
        distinct_degrees(s) ==> distinct_degrees(below_degree(s, bound)),
    decreases bound,
{
    if bound > 0 {
        lemma_below_degree(s, bound - 1);
        lemma_of_degree(s, bound - 1);
        let low = below_degree(s, bound - 1);
        let top = of_degree(s, bound - 1);
        let all = below_degree(s, bound);
        assert(all == low + top);
        assert forall|k: int| 0 <= k < all.len() implies (#[trigger] all[k]).degree < bound by {
            if k < low.len() {
                assert(all[k] == low[k]);
            } else {
                assert(all[k] == top[k - low.len()]);
            }
        }
        assert forall|i: int, j: int| 0 <= i < j < all.len() implies (#[trigger] all[i]).degree <= (
        #[trigger] all[j]).degree by {
            if j < low.len() {
                assert(all[i] == low[i] && all[j] == low[j]);
            } else if i < low.len() {
                assert(all[i] == low[i] && all[j] == top[j - low.len()]);
            } else {
                assert(all[i] == top[i - low.len()] && all[j] == top[j - low.len()]);
            }
        }
        if distinct_degrees(s) {
            assert forall|i: int, j: int| 0 <= i < j < all.len() implies (#[trigger] all[i]).degree
                != (#[trigger] all[j]).degree by {
                if j < low.len() {
                    assert(all[i] == low[i] && all[j] == low[j]);
                } else if i < low.len() {
                    assert(all[i] == low[i] && all[j] == top[j - low.len()]);
                }
            }
        }
    }
}

/// Ordering by degree gives ascending degrees and keeps distinct degrees
/// distinct.
pub proof fn lemma_by_degree_ascending(s: Seq<Term>)
    ensures
        ascending(by_degree(s)),
        distinct_degrees(s) ==> distinct_degrees(by_degree(s)),
{
    lemma_below_degree(s, 256);
}

} // verus!
