//! What holds of insertion, subtraction and the effective degree.

use vstd::prelude::*;
use crate::coefficient::{applied, Coefficient};
use crate::polynomial::{
    coefficient_at, difference, distinct_degrees, effective_degree, first_at, has_degree, inserted,
    inserted_all, lemma_coefficient_of_position, lemma_first_is_position,
    lemma_inserted_all_distinct_degrees, lemma_inserted_distinct, negated_terms,
};
use crate::term::Term;

verus! {

/// Two terms of one degree, inserted one after the other, leave exactly
/// one term of that degree. Its coefficient is the sum of the coefficient
/// that stood there after the first insertion and that of the second term;
/// where the degree was new, that is the sum of the two coefficients.
pub proof fn lemma_equal_degrees_merge<F: Fn(Coefficient, Coefficient) -> Coefficient>(
    s: Seq<Term>,
    t1: Term,
    t2: Term,
    sum: F,
)
    requires
        distinct_degrees(s),
        t1.degree == t2.degree,
    ensures
        ({
            let once = inserted(s, t1, sum);
            let twice = inserted(once, t2, sum);
            &&& twice.len() == once.len()
            &&& has_degree(twice, t1.degree)
            &&& forall|i: int, j: int|
                0 <= i < twice.len() && 0 <= j < twice.len() && (#[trigger] twice[i]).degree
                    == t1.degree && (#[trigger] twice[j]).degree == t1.degree ==> i == j
            &&& coefficient_at(twice, t1.degree) == applied(
                sum,
                coefficient_at(once, t1.degree),
                t2.coefficient,
            )
            &&& !has_degree(s, t1.degree) ==> coefficient_at(twice, t1.degree) == applied(
                sum,
                t1.coefficient,
                t2.coefficient,
            )
        }),
{
    let d = t1.degree;
    let once = inserted(s, t1, sum);
    lemma_inserted_distinct(s, t1, sum);
    let twice = inserted(once, t2, sum);
    lemma_inserted_distinct(once, t2, sum);
    let w = choose|i: int| 0 <= i < once.len() && (#[trigger] once[i]).degree == d;
    lemma_coefficient_of_position(once, w);
    assert(twice[w].degree == d);
    lemma_coefficient_of_position(twice, w);
    assert forall|i: int, j: int|
        0 <= i < twice.len() && 0 <= j < twice.len() && (#[trigger] twice[i]).degree == d && (
        #[trigger] twice[j]).degree == d implies i == j by {
        if i < j {
            assert(twice[i].degree != twice[j].degree);
        }
        if j < i {
            assert(twice[j].degree != twice[i].degree);
        }
    }
    if !has_degree(s, d) {
        assert(once[s.len() as int] == t1);
        lemma_coefficient_of_position(once, s.len() as int);
    }
}

/// Inserting the terms of a sequence with distinct degrees into the empty
/// sequence gives that sequence back.
pub proof fn lemma_inserted_all_distinct<F: Fn(Coefficient, Coefficient) -> Coefficient>(
    p: Seq<Term>,
    sum: F,
)
    requires
        distinct_degrees(p),
    ensures
        inserted_all(Seq::<Term>::empty(), p, sum) == p,
    decreases p.len(),
{
    if p.len() > 0 {
        let rest = p.drop_last();
        assert forall|i: int, j: int| 0 <= i < j < rest.len() implies (#[trigger] rest[i]).degree
            != (#[trigger] rest[j]).degree by {
            assert(rest[i] == p[i] && rest[j] == p[j]);
        }
        lemma_inserted_all_distinct(rest, sum);
        if has_degree(rest, p.last().degree) {
            let w = choose|i: int| 0 <= i < rest.len() && (#[trigger] rest[i]).degree == p.last().degree;
            assert(rest[w] == p[w]);
            assert(p[w].degree != p[p.len() - 1].degree);
        }
        assert(rest.push(p.last()) == p);
    } else {
        assert(p == Seq::<Term>::empty());
    }
}

/// The sequence `p` after its first `k` terms were cancelled against their
/// own opposites.
pub open spec fn cancelled<F: Fn(Coefficient, Coefficient) -> Coefficient>(
    p: Seq<Term>,
    k: int,
    sum: F,
) -> Seq<Term> {
    Seq::new(
        p.len(),
        |j: int|
            if j < k {
                Term {
                    degree: p[j].degree,
                    coefficient: applied(sum, p[j].coefficient, p[j].coefficient.negated()),
                }
            } else {
                p[j]
            },
    )
}

proof fn lemma_cancel_prefix<F: Fn(Coefficient, Coefficient) -> Coefficient>(
    p: Seq<Term>,
    k: int,
    sum: F,
)
    requires
        distinct_degrees(p),
        0 <= k <= p.len(),
    ensures
        inserted_all(p, negated_terms(p).take(k), sum) == cancelled(p, k, sum),
    decreases k,
{
    let ts = negated_terms(p).take(k);
    if k == 0 {
        assert(cancelled(p, 0, sum) == p);
    } else {
        lemma_cancel_prefix(p, k - 1, sum);
        assert(ts.drop_last() == negated_terms(p).take(k - 1));
        let before = cancelled(p, k - 1, sum);
        let t = ts.last();
        assert(t == p[k - 1].negated());
        assert(before[k - 1] == p[k - 1]);
        assert forall|j: int| 0 <= j < k - 1 implies (#[trigger] before[j]).degree != t.degree by {
            assert(before[j].degree == p[j].degree);
            assert(p[j].degree != p[k - 1].degree);
        }
        assert(first_at(before, t.degree, k - 1));
        lemma_first_is_position(before, t.degree, k - 1);
        assert(inserted(before, t, sum) == cancelled(p, k, sum));
    }
}

/// Where every coefficient is zero, the effective degree is zero.
pub proof fn lemma_all_zero_degree(s: Seq<Term>)
    requires
        forall|i: int| 0 <= i < s.len() ==> (#[trigger] s[i]).coefficient.is_zero(),
    ensures
        effective_degree(s) == 0,
    decreases s.len(),
{
    if s.len() > 0 {
        let rest = s.drop_last();
        assert forall|i: int| 0 <= i < rest.len() implies (#[trigger] rest[i]).coefficient.is_zero() by {
            assert(rest[i] == s[i]);
        }
        lemma_all_zero_degree(rest);
        assert(s.last() == s[s.len() - 1]);
    }
}

/// A polynomial subtracted from itself keeps its degrees, has the
/// coefficient zero everywhere and the effective degree zero, wherever the
/// sum of each coefficient and its opposite is zero.
pub proof fn lemma_self_difference<F: Fn(Coefficient, Coefficient) -> Coefficient>(
    p: Seq<Term>,
    sum: F,
)
    requires
        distinct_degrees(p),
        forall|i: int|
            0 <= i < p.len() ==> applied(
                sum,
                (#[trigger] p[i]).coefficient,
                p[i].coefficient.negated(),
            ).is_zero(),
    ensures
        difference(p, p, sum).len() == p.len(),
        forall|i: int|
            0 <= i < p.len() ==> (#[trigger] difference(p, p, sum)[i]).coefficient.is_zero()
                && difference(p, p, sum)[i].degree == p[i].degree,
        effective_degree(difference(p, p, sum)) == 0,
{
    lemma_inserted_all_distinct(p, sum);
    lemma_cancel_prefix(p, p.len() as int, sum);
    assert(negated_terms(p).take(p.len() as int) == negated_terms(p));
    let r = difference(p, p, sum);
    assert(r == cancelled(p, p.len() as int, sum));
    lemma_all_zero_degree(r);
}

/// A term whose coefficient is zero does not count towards the effective
/// degree, whatever its degree: appending it changes nothing.
pub proof fn lemma_zero_term_ignored(s: Seq<Term>, t: Term)
    requires
        t.coefficient.is_zero(),
    ensures
        effective_degree(s.push(t)) == effective_degree(s),
{
    assert(s.push(t).drop_last() == s);
}

/// Where no term has a degree, the coefficient at that degree is zero.
pub proof fn lemma_absent_coefficient(s: Seq<Term>, degree: u8)
    requires
        !has_degree(s, degree),
    ensures
        coefficient_at(s, degree) == (Coefficient { bits: 0 }),
    decreases s.len(),
{
    if s.len() > 0 {
        let rest = s.drop_last();
        assert(s[s.len() - 1].degree != degree);
        assert forall|i: int| 0 <= i < rest.len() implies (#[trigger] rest[i]).degree != degree by {
            assert(rest[i] == s[i]);
        }
        lemma_absent_coefficient(rest, degree);
    }
}

/// The coefficients after one insertion: at the degree of the term, the
/// sum of what stood there and the term's coefficient, or the term's
/// coefficient where nothing stood there; at any other degree, what stood
/// there.
pub proof fn lemma_inserted_coefficient<F: Fn(Coefficient, Coefficient) -> Coefficient>(
    s: Seq<Term>,
    t: Term,
    sum: F,
    degree: u8,
)
    requires
        distinct_degrees(s),
    ensures
        has_degree(inserted(s, t, sum), degree) <==> has_degree(s, degree) || degree == t.degree,
        coefficient_at(inserted(s, t, sum), degree) == if degree == t.degree {
            if has_degree(s, degree) {
                applied(sum, coefficient_at(s, degree), t.coefficient)
            } else {
                t.coefficient
            }
        } else {
            coefficient_at(s, degree)
        },
{
    let r = inserted(s, t, sum);
    lemma_inserted_distinct(s, t, sum);
    if has_degree(s, t.degree) {
        let w = choose|i: int| 0 <= i < s.len() && (#[trigger] s[i]).degree == t.degree;
        lemma_coefficient_of_position(s, w);
        assert(r[w].degree == t.degree);
        if has_degree(s, degree) {
            let i = choose|i: int| 0 <= i < s.len() && (#[trigger] s[i]).degree == degree;
            lemma_coefficient_of_position(s, i);
            assert(r[i].degree == degree);
            lemma_coefficient_of_position(r, i);
            if i != w {
                if i < w {
                    assert(s[i].degree != s[w].degree);
                } else {
                    assert(s[w].degree != s[i].degree);
                }
            }
        } else {
            if has_degree(r, degree) {
                let i = choose|i: int| 0 <= i < r.len() && (#[trigger] r[i]).degree == degree;
                assert(s[i].degree == r[i].degree);
            }
            lemma_absent_coefficient(s, degree);
            lemma_absent_coefficient(r, degree);
        }
    } else {
        assert(r == s.push(t));
        assert(r.drop_last() == s);
        assert(r[s.len() as int] == t);
        if has_degree(s, degree) {
            let i = choose|i: int| 0 <= i < s.len() && (#[trigger] s[i]).degree == degree;
            assert(r[i] == s[i]);
        }
        if has_degree(r, degree) && degree != t.degree {
            let i = choose|i: int| 0 <= i < r.len() && (#[trigger] r[i]).degree == degree;
            assert(r[i] == s[i]);
        }
    }
}

/// The coefficients after the insertion of several terms with distinct
/// degrees: at a degree that they hold, the sum of what stood there and
/// their coefficient, or their coefficient where nothing stood there; at
/// any other degree, what stood there.
pub proof fn lemma_inserted_all_coefficient<F: Fn(Coefficient, Coefficient) -> Coefficient>(
    s: Seq<Term>,
    ts: Seq<Term>,
    sum: F,
    degree: u8,
)
    requires
        distinct_degrees(s),
        distinct_degrees(ts),
    ensures
        has_degree(inserted_all(s, ts, sum), degree) <==> has_degree(s, degree) || has_degree(
            ts,
            degree,
        ),
        coefficient_at(inserted_all(s, ts, sum), degree) == if has_degree(ts, degree) {
            if has_degree(s, degree) {
                applied(sum, coefficient_at(s, degree), coefficient_at(ts, degree))
            } else {
                coefficient_at(ts, degree)
            }
        } else {
            coefficient_at(s, degree)
        },
    decreases ts.len(),
{
    if ts.len() > 0 {
        let rest = ts.drop_last();
        let t = ts.last();
        assert forall|i: int, j: int| 0 <= i < j < rest.len() implies (#[trigger] rest[i]).degree
            != (#[trigger] rest[j]).degree by {
            assert(rest[i] == ts[i] && rest[j] == ts[j]);
        }
        lemma_inserted_all_coefficient(s, rest, sum, degree);
        let acc = inserted_all(s, rest, sum);
        lemma_inserted_all_distinct_degrees(s, rest, sum);
        lemma_inserted_coefficient(acc, t, sum, degree);
        assert(ts[ts.len() - 1] == t);
        if has_degree(rest, degree) {
            let i = choose|i: int| 0 <= i < rest.len() && (#[trigger] rest[i]).degree == degree;
            assert(ts[i] == rest[i]);
            assert(ts[i].degree != ts[ts.len() - 1].degree);
        }
        if has_degree(ts, degree) && degree != t.degree {
            let i = choose|i: int| 0 <= i < ts.len() && (#[trigger] ts[i]).degree == degree;
            assert(rest[i] == ts[i]);
        }
    }
}

/// Negating every term keeps the degrees and negates the coefficient at
/// each degree that is present.
pub proof fn lemma_negated_terms(s: Seq<Term>, degree: u8)
    requires
        distinct_degrees(s),
    ensures
        distinct_degrees(negated_terms(s)),
        has_degree(negated_terms(s), degree) <==> has_degree(s, degree),
        has_degree(s, degree) ==> coefficient_at(negated_terms(s), degree) == coefficient_at(
            s,
            degree,
        ).negated(),
{
    let n = negated_terms(s);
    assert forall|i: int, j: int| 0 <= i < j < n.len() implies (#[trigger] n[i]).degree != (
    #[trigger] n[j]).degree by {
        assert(s[i].degree != s[j].degree);
    }
    if has_degree(s, degree) {
        let i = choose|i: int| 0 <= i < s.len() && (#[trigger] s[i]).degree == degree;
        assert(n[i].degree == degree);
        lemma_coefficient_of_position(s, i);
        lemma_coefficient_of_position(n, i);
    }
    if has_degree(n, degree) {
        let i = choose|i: int| 0 <= i < n.len() && (#[trigger] n[i]).degree == degree;
        assert(s[i].degree == degree);
    }
}

/// The difference of two polynomials, degree by degree: a degree is
/// present where either side holds it. Its coefficient is the sum of the
/// left coefficient and the negated right coefficient where both sides
/// hold the degree, the left coefficient where only the left side does,
/// and the negated right coefficient where only the right side does.
pub proof fn lemma_difference_coefficient<F: Fn(Coefficient, Coefficient) -> Coefficient>(
    lhs: Seq<Term>,
    rhs: Seq<Term>,
    sum: F,
    degree: u8,
)
    requires
        distinct_degrees(lhs),
        distinct_degrees(rhs),
    ensures
        has_degree(difference(lhs, rhs, sum), degree) <==> has_degree(lhs, degree) || has_degree(
            rhs,
            degree,
        ),
        coefficient_at(difference(lhs, rhs, sum), degree) == if has_degree(rhs, degree) {
            if has_degree(lhs, degree) {
                applied(sum, coefficient_at(lhs, degree), coefficient_at(rhs, degree).negated())
            } else {
                coefficient_at(rhs, degree).negated()
            }
        } else {
            coefficient_at(lhs, degree)
        },
{
    lemma_inserted_all_distinct(lhs, sum);
    lemma_negated_terms(rhs, degree);
    lemma_inserted_all_coefficient(lhs, negated_terms(rhs), sum, degree);
}

/// The order of two insertions does not change the coefficient at any
/// degree, where the two terms differ in degree, or where they share a
/// degree that was not present and their sum is the same in either order.
pub proof fn lemma_insertion_order<F: Fn(Coefficient, Coefficient) -> Coefficient>(
    s: Seq<Term>,
    t1: Term,
    t2: Term,
    sum: F,
    degree: u8,
)
    requires
        distinct_degrees(s),
        t1.degree != t2.degree || (!has_degree(s, t1.degree) && applied(
            sum,
            t1.coefficient,
            t2.coefficient,
        ) == applied(sum, t2.coefficient, t1.coefficient)),
    ensures
        coefficient_at(inserted(inserted(s, t1, sum), t2, sum), degree) == coefficient_at(
            inserted(inserted(s, t2, sum), t1, sum),
            degree,
        ),
{
    lemma_inserted_distinct(s, t1, sum);
    lemma_inserted_distinct(s, t2, sum);
    lemma_inserted_coefficient(s, t1, sum, degree);
    lemma_inserted_coefficient(s, t2, sum, degree);
    lemma_inserted_coefficient(inserted(s, t1, sum), t2, sum, degree);
    lemma_inserted_coefficient(inserted(s, t2, sum), t1, sum, degree);
}

} // verus!
