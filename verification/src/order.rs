//! What ordering by degree keeps: the terms, the coefficient at every
//! degree and the effective degree.

use vstd::prelude::*;
use crate::coefficient::{applied, Coefficient};
use crate::laws::{lemma_absent_coefficient, lemma_difference_coefficient};
use crate::polynomial::{
    ascending, below_degree, by_degree, coefficient_at, difference, distinct_degrees,
    effective_degree, has_degree, lemma_by_degree_ascending, lemma_difference_distinct,
    lemma_effective_degree, of_degree,
};
use crate::term::Term;

verus! {

/// The coefficient at a degree in two sequences put together is that of
/// the second where it holds the degree, and that of the first otherwise.
pub proof fn lemma_coefficient_concat(x: Seq<Term>, y: Seq<Term>, degree: u8)
    ensures
        coefficient_at(x + y, degree) == if has_degree(y, degree) {
            coefficient_at(y, degree)
        } else {
            coefficient_at(x, degree)
        },
    decreases y.len(),
{
    if y.len() == 0 {
        assert(x + y == x);
    } else {
        let rest = y.drop_last();
        assert((x + y).drop_last() == x + rest);
        assert((x + y).last() == y.last());
        lemma_coefficient_concat(x, rest, degree);
        assert(y[y.len() - 1] == y.last());
        if has_degree(rest, degree) {
            let i = choose|i: int| 0 <= i < rest.len() && (#[trigger] rest[i]).degree == degree;
            assert(y[i] == rest[i]);
        }
        if y.last().degree != degree && has_degree(y, degree) {
            let i = choose|i: int| 0 <= i < y.len() && (#[trigger] y[i]).degree == degree;
            assert(rest[i] == y[i]);
        }
    }
}

/// The terms picked for a degree are the terms of the sequence that have
/// the degree; the coefficient at that degree is the same in both.
pub proof fn lemma_of_degree_keeps(s: Seq<Term>, picked: int, degree: u8, t: Term)
    ensures
        of_degree(s, picked).contains(t) <==> s.contains(t) && t.degree == picked,
        has_degree(of_degree(s, picked), degree) <==> degree == picked && has_degree(s, degree),
        degree == picked ==> coefficient_at(of_degree(s, picked), degree) == coefficient_at(
            s,
            degree,
        ),
    decreases s.len(),
{
    let p = of_degree(s, picked);
    if s.len() > 0 {
        let rest = s.drop_last();
        let q = of_degree(rest, picked);
        lemma_of_degree_keeps(rest, picked, degree, t);
        assert(s[s.len() - 1] == s.last());
        if rest.contains(t) {
            let i = choose|i: int| 0 <= i < rest.len() && rest[i] == t;
            assert(s[i] == t);
        }
        if s.contains(t) && t != s.last() {
            let i = choose|i: int| 0 <= i < s.len() && s[i] == t;
            assert(rest[i] == t);
        }
        if has_degree(rest, degree) {
            let i = choose|i: int| 0 <= i < rest.len() && (#[trigger] rest[i]).degree == degree;
            assert(s[i] == rest[i]);
        }
        if has_degree(s, degree) && s.last().degree != degree {
            let i = choose|i: int| 0 <= i < s.len() && (#[trigger] s[i]).degree == degree;
            assert(rest[i] == s[i]);
        }
        if s.last().degree == picked {
            assert(p == q.push(s.last()));
            assert(p.drop_last() == q);
            assert(p[p.len() - 1] == s.last());
            if q.contains(t) {
                let i = choose|i: int| 0 <= i < q.len() && q[i] == t;
                assert(p[i] == t);
            }
            if p.contains(t) && t != s.last() {
                let i = choose|i: int| 0 <= i < p.len() && p[i] == t;
                assert(q[i] == t);
            }
            if has_degree(q, degree) {
                let i = choose|i: int| 0 <= i < q.len() && (#[trigger] q[i]).degree == degree;
                assert(p[i] == q[i]);
            }
            if has_degree(p, degree) && degree != picked {
                let i = choose|i: int| 0 <= i < p.len() && (#[trigger] p[i]).degree == degree;
                assert(q[i] == p[i]);
            }
        }
    }
}

/// The terms below a degree bound are the terms of the sequence with a
/// degree below the bound, with the same coefficient at each such degree.
pub proof fn lemma_below_degree_keeps(s: Seq<Term>, bound: int, degree: u8, t: Term)
    ensures
        below_degree(s, bound).contains(t) <==> s.contains(t) && t.degree < bound,
        has_degree(below_degree(s, bound), degree) <==> degree < bound && has_degree(s, degree),
        degree < bound ==> coefficient_at(below_degree(s, bound), degree) == coefficient_at(
            s,
            degree,
        ),
    decreases bound,
{
    let all = below_degree(s, bound);
    if bound > 0 {
        let low = below_degree(s, bound - 1);
        let top = of_degree(s, bound - 1);
        lemma_below_degree_keeps(s, bound - 1, degree, t);
        lemma_of_degree_keeps(s, bound - 1, degree, t);
        lemma_coefficient_concat(low, top, degree);
        assert(all == low + top);
        if low.contains(t) {
            let i = choose|i: int| 0 <= i < low.len() && low[i] == t;
            assert(all[i] == t);
        }
        if top.contains(t) {
            let i = choose|i: int| 0 <= i < top.len() && top[i] == t;
            assert(all[low.len() + i] == t);
        }
        if all.contains(t) {
            let i = choose|i: int| 0 <= i < all.len() && all[i] == t;
            if i < low.len() {
                assert(low[i] == t);
            } else {
                assert(top[i - low.len()] == t);
            }
        }
        if has_degree(low, degree) {
            let i = choose|i: int| 0 <= i < low.len() && (#[trigger] low[i]).degree == degree;
            assert(all[i] == low[i]);
        }
        if has_degree(top, degree) {
            let i = choose|i: int| 0 <= i < top.len() && (#[trigger] top[i]).degree == degree;
            assert(all[low.len() + i] == top[i]);
        }
        if has_degree(all, degree) {
            let i = choose|i: int| 0 <= i < all.len() && (#[trigger] all[i]).degree == degree;
            if i < low.len() {
                assert(low[i] == all[i]);
            } else {
                assert(top[i - low.len()] == all[i]);
            }
        }
        if degree == bound - 1 && !has_degree(top, degree) {
            lemma_absent_coefficient(s, degree);
            lemma_absent_coefficient(low, degree);
        }
    }
}

/// Ordering by degree keeps the terms, the coefficient at every degree
/// and the effective degree.
pub proof fn lemma_by_degree_keeps(s: Seq<Term>)
    ensures
        forall|t: Term| #[trigger] by_degree(s).contains(t) <==> s.contains(t),
        forall|degree: u8| #[trigger]
            has_degree(by_degree(s), degree) <==> has_degree(s, degree),
        forall|degree: u8| #[trigger]
            coefficient_at(by_degree(s), degree) == coefficient_at(s, degree),
        effective_degree(by_degree(s)) == effective_degree(s),
{
    let r = by_degree(s);
    assert forall|t: Term| #[trigger] r.contains(t) <==> s.contains(t) by {
        lemma_below_degree_keeps(s, 256, 0, t);
    }
    assert forall|degree: u8| #[trigger] has_degree(r, degree) <==> has_degree(s, degree) by {
        lemma_below_degree_keeps(s, 256, degree, Term { degree, coefficient: Coefficient { bits: 0 } });
    }
    assert forall|degree: u8| #[trigger]
        coefficient_at(r, degree) == coefficient_at(s, degree) by {
        lemma_below_degree_keeps(s, 256, degree, Term { degree, coefficient: Coefficient { bits: 0 } });
    }
    lemma_effective_degree(s);
    lemma_effective_degree(r);
    let e = effective_degree(s);
    let f = effective_degree(r);
    if e != 0 {
        let i = choose|i: int|
            0 <= i < s.len() && !(#[trigger] s[i]).coefficient.is_zero() && s[i].degree == e;
        assert(s.contains(s[i]));
        assert(r.contains(s[i]));
        let k = choose|k: int| 0 <= k < r.len() && r[k] == s[i];
        assert(!r[k].coefficient.is_zero());
        assert(e <= f);
    }
    if f != 0 {
        let i = choose|i: int|
            0 <= i < r.len() && !(#[trigger] r[i]).coefficient.is_zero() && r[i].degree == f;
        assert(r.contains(r[i]));
        assert(s.contains(r[i]));
        let k = choose|k: int| 0 <= k < s.len() && s[k] == r[i];
        assert(!s[k].coefficient.is_zero());
        assert(f <= e);
    }
}

/// The reduced equation `lhs - rhs`, ordered by degree: its degrees are
/// distinct and ascending, and they are the degrees of either side. The
/// coefficient at a degree is the sum of the left coefficient and the
/// negated right coefficient where both sides hold the degree, the left
/// coefficient where only the left side does, and the negated right
/// coefficient where only the right side does.
pub proof fn lemma_reduced_equation<F: Fn(Coefficient, Coefficient) -> Coefficient>(
    lhs: Seq<Term>,
    rhs: Seq<Term>,
    sum: F,
    degree: u8,
)
    requires
        distinct_degrees(lhs),
        distinct_degrees(rhs),
    ensures
        distinct_degrees(by_degree(difference(lhs, rhs, sum))),
        ascending(by_degree(difference(lhs, rhs, sum))),
        has_degree(by_degree(difference(lhs, rhs, sum)), degree) <==> has_degree(lhs, degree)
            || has_degree(rhs, degree),
        coefficient_at(by_degree(difference(lhs, rhs, sum)), degree) == if has_degree(
            rhs,
            degree,
        ) {
            if has_degree(lhs, degree) {
                applied(sum, coefficient_at(lhs, degree), coefficient_at(rhs, degree).negated())
            } else {
                coefficient_at(rhs, degree).negated()
            }
        } else {
            coefficient_at(lhs, degree)
        },
{
    let r = difference(lhs, rhs, sum);
    lemma_difference_distinct(lhs, rhs, sum);
    lemma_by_degree_ascending(r);
    lemma_by_degree_keeps(r);
    lemma_difference_coefficient(lhs, rhs, sum, degree);
}

} // verus!
