//! Equations: two sides around one `=`, each a sum of signed terms.

use vstd::prelude::*;
use crate::coefficient::{is_operation, is_reader, Coefficient};
use crate::polynomial::{
    ascending, by_degree, difference, difference_yields, distinct_degrees, inserted,
    insertion_yields, lemma_inserted_distinct, Polynomial,
};
use crate::syntax::{Fault, SyntaxError};
use crate::term::{parse_chars, parsed_term, term_read, Term};
use crate::text::{chars_of, push_all, string_of, texts, trim, trimmed};

verus! {

/// The text with every `x` written as `X`.
pub open spec fn upper(s: Seq<char>) -> Seq<char> {
    Seq::new(
        s.len(),
        |i: int|
            if s[i] == 'x' {
                'X'
            } else {
                s[i]
            },
    )
}

/// How often a character occurs.
pub open spec fn count_of(s: Seq<char>, c: char) -> nat
    decreases s.len(),
{
    if s.len() == 0 {
        0
    } else if s.last() == c {
        count_of(s.drop_last(), c) + 1
    } else {
        count_of(s.drop_last(), c)
    }
}

/// `i` is the position of the first `c`.
pub open spec fn first_of(s: Seq<char>, c: char, i: int) -> bool {
    &&& 0 <= i < s.len()
    &&& s[i] == c
    &&& forall|j: int| 0 <= j < i ==> #[trigger] s[j] != c
}

/// The side with ` + ` written in front of every minus sign.
pub open spec fn explicit(s: Seq<char>) -> Seq<char>
    decreases s.len(),
{
    if s.len() == 0 {
        Seq::<char>::empty()
    } else if s.last() == '-' {
        explicit(s.drop_last()) + seq!['+', ' ', '-']
    } else {
        explicit(s.drop_last()).push(s.last())
    }
}

/// The side without the spaces that directly follow a minus sign, one
/// for each sign.
pub open spec fn attached(s: Seq<char>) -> Seq<char>
    decreases s.len(),
{
    if s.len() == 0 {
        Seq::<char>::empty()
    } else if s.len() >= 2 && s.last() == ' ' && s[s.len() - 2] == '-' {
        attached(s.drop_last())
    } else {
        attached(s.drop_last()).push(s.last())
    }
}

/// The side read up to its end: the pieces closed by a plus sign so far,
/// and the piece behind the last plus sign.
pub open spec fn summands(s: Seq<char>) -> (Seq<Seq<char>>, Seq<char>)
    decreases s.len(),
{
    if s.len() == 0 {
        (Seq::<Seq<char>>::empty(), Seq::<char>::empty())
    } else {
        let before = summands(s.drop_last());
        if s.last() == '+' {
            (before.0.push(before.1), Seq::<char>::empty())
        } else {
            (before.0, before.1.push(s.last()))
        }
    }
}

/// The pieces between plus signs. A first piece of white space only, in
/// front of a plus sign, is left out.
pub open spec fn pieces_of(s: Seq<char>) -> Seq<Seq<char>> {
    let read = summands(s);
    let pieces = read.0.push(read.1);
    if pieces.len() > 1 && trimmed(pieces[0]).len() == 0 {
        pieces.skip(1)
    } else {
        pieces
    }
}

/// The signed terms of one side: the pieces between plus signs once every
/// minus sign is attached to what follows it and set off by a plus sign.
pub open spec fn signed_terms(side: Seq<char>) -> Seq<Seq<char>> {
    pieces_of(attached(explicit(side)))
}

/// The terms of the texts inserted in turn into `start`, or the fault of
/// the first text that is no term.
pub open spec fn collected<
    N: Fn(String) -> Option<Coefficient>,
    F: Fn(Coefficient, Coefficient) -> Coefficient,
>(texts: Seq<Seq<char>>, number: N, sum: F) -> Result<Seq<Term>, Fault>
    decreases texts.len(),
{
    if texts.len() == 0 {
        Ok(Seq::<Term>::empty())
    } else {
        match collected(texts.drop_last(), number, sum) {
            Err(f) => Err(f),
            Ok(terms) => match parsed_term(texts.last(), number) {
                Err(f) => Err(f),
                Ok(t) => Ok(inserted(terms, t, sum)),
            },
        }
    }
}

/// Every reading and every sum that collecting the terms of the texts
/// takes has a result.
pub open spec fn collected_yields<
    N: Fn(String) -> Option<Coefficient>,
    F: Fn(Coefficient, Coefficient) -> Coefficient,
>(texts: Seq<Seq<char>>, number: N, sum: F) -> bool
    decreases texts.len(),
{
    texts.len() > 0 ==> {
        &&& collected_yields(texts.drop_last(), number, sum)
        &&& match collected(texts.drop_last(), number, sum) {
            Err(_) => true,
            Ok(terms) => {
                &&& term_read(texts.last(), number)
                &&& match parsed_term(texts.last(), number) {
                    Err(_) => true,
                    Ok(t) => insertion_yields(terms, t, sum),
                }
            },
        }
    }
}

/// Every reading and every sum that reducing the equation takes has a
/// result.
pub open spec fn equation_yields<
    N: Fn(String) -> Option<Coefficient>,
    F: Fn(Coefficient, Coefficient) -> Coefficient,
>(input: Seq<char>, number: N, sum: F) -> bool {
    let s = upper(trimmed(input));
    if s.len() == 0 || count_of(s, 'X') == 0 || count_of(s, '=') != 1 {
        true
    } else {
        let at = choose|i: int| first_of(s, '=', i);
        &&& collected_yields(signed_terms(s.take(at)), number, sum)
        &&& match collected(signed_terms(s.take(at)), number, sum) {
            Err(_) => true,
            Ok(lhs) => {
                &&& collected_yields(signed_terms(s.skip(at + 1)), number, sum)
                &&& match collected(signed_terms(s.skip(at + 1)), number, sum) {
                    Err(_) => true,
                    Ok(rhs) => difference_yields(lhs, rhs, sum),
                }
            },
        }
    }
}

/// The reduced terms of an equation, by ascending degree: the left side
/// minus the right side. The equation is trimmed and `x` read as `X`; it
/// must not be empty, must hold the unknown and exactly one `=`, and each
/// signed term of the two sides must be a term. Faults of the left side
/// come before those of the right side.
pub open spec fn equation<
    N: Fn(String) -> Option<Coefficient>,
    F: Fn(Coefficient, Coefficient) -> Coefficient,
>(input: Seq<char>, number: N, sum: F) -> Result<Seq<Term>, Fault> {
    let s = upper(trimmed(input));
    if s.len() == 0 {
        Err(Fault::EmptyInput)
    } else if count_of(s, 'X') == 0 {
        Err(Fault::NoUnknown)
    } else if count_of(s, '=') == 0 {
        Err(Fault::MissingEquals)
    } else if count_of(s, '=') > 1 {
        Err(Fault::TooManyEquals)
    } else {
        let at = choose|i: int| first_of(s, '=', i);
        match collected(signed_terms(s.take(at)), number, sum) {
            Err(f) => Err(f),
            Ok(lhs) => match collected(signed_terms(s.skip(at + 1)), number, sum) {
                Err(f) => Err(f),
                Ok(rhs) => Ok(by_degree(difference(lhs, rhs, sum))),
            },
        }
    }
}

/// The views of the texts.
pub open spec fn views(texts: Seq<Vec<char>>) -> Seq<Seq<char>> {
    Seq::new(texts.len(), |i: int| texts[i]@)
}

fn to_upper(v: &Vec<char>) -> (r: Vec<char>)
    ensures
        r@ == upper(v@),
{
    let mut r: Vec<char> = Vec::new();
    let mut i: usize = 0;
    while i < v.len()
        invariant
            i <= v.len(),
            r@ == upper(v@).take(i as int),
        decreases v.len() - i,
    {
        let c: char = v[i];
        if c == 'x' {
            r.push('X');
        } else {
            r.push(c);
        }
        assert(r@ == upper(v@).take(i + 1));
        i += 1;
    }
    assert(upper(v@).take(i as int) == upper(v@));
    r
}

/// How often the character occurs, counted up to two, and the position of
/// its first occurrence.
fn occurrences(v: &Vec<char>, c: char) -> (r: (u8, usize))
    ensures
        r.0 <= 2,
        count_of(v@, c) < 2 ==> r.0 == count_of(v@, c),
        count_of(v@, c) >= 2 ==> r.0 == 2,
        r.0 >= 1 ==> first_of(v@, c, r.1 as int),
{
    let mut n: u8 = 0;
    let mut at: usize = 0;
    let mut i: usize = 0;
    while i < v.len()
        invariant
            i <= v.len(),
            n <= 2,
            count_of(v@.take(i as int), c) < 2 ==> n == count_of(v@.take(i as int), c),
            count_of(v@.take(i as int), c) >= 2 ==> n == 2,
            n >= 1 ==> first_of(v@, c, at as int) && at < i,
            n == 0 ==> forall|j: int| 0 <= j < i ==> #[trigger] v@[j] != c,
        decreases v.len() - i,
    {
        proof {
            assert(v@.take(i + 1).drop_last() == v@.take(i as int));
        }
        if v[i] == c {
            if n == 0 {
                at = i;
            }
            if n < 2 {
                n += 1;
            }
        }
        i += 1;
    }
    assert(v@.take(i as int) == v@);
    (n, at)
}

fn make_explicit(v: &Vec<char>, from: usize, to: usize) -> (r: Vec<char>)
    requires
        from <= to <= v.len(),
    ensures
        r@ == explicit(v@.subrange(from as int, to as int)),
{
    let ghost side = v@.subrange(from as int, to as int);
    let mut r: Vec<char> = Vec::new();
    let mut i: usize = from;
    while i < to
        invariant
            from <= i <= to <= v.len(),
            side == v@.subrange(from as int, to as int),
            r@ == explicit(side.take(i - from)),
        decreases to - i,
    {
        proof {
            assert(side.take(i - from + 1).drop_last() == side.take(i - from));
        }
        let c: char = v[i];
        if c == '-' {
            let ghost before = r@;
            r.push('+');
            r.push(' ');
            r.push('-');
            assert(r@ == before + seq!['+', ' ', '-']);
        } else {
            r.push(c);
        }
        i += 1;
    }
    assert(side.take(to - from) == side);
    r
}

fn attach(v: &Vec<char>) -> (r: Vec<char>)
    ensures
        r@ == attached(v@),
{
    let mut r: Vec<char> = Vec::new();
    let mut i: usize = 0;
    while i < v.len()
        invariant
            i <= v.len(),
            r@ == attached(v@.take(i as int)),
        decreases v.len() - i,
    {
        proof {
            assert(v@.take(i + 1).drop_last() == v@.take(i as int));
        }
        if !(i >= 1 && v[i] == ' ' && v[i - 1] == '-') {
            r.push(v[i]);
        }
        i += 1;
    }
    assert(v@.take(i as int) == v@);
    r
}

fn split_terms(side: &Vec<char>) -> (r: Vec<Vec<char>>)
    ensures
        views(r@) == pieces_of(side@),
{
    let mut closed: Vec<Vec<char>> = Vec::new();
    let mut run: Vec<char> = Vec::new();
    let mut skipped: bool = false;
    let ghost all: Seq<Seq<char>> = Seq::empty();
    let mut i: usize = 0;
    while i < side.len()
        invariant
            i <= side.len(),
            all == summands(side@.take(i as int)).0,
            run@ == summands(side@.take(i as int)).1,
            skipped ==> all.len() >= 1 && trimmed(all[0]).len() == 0 && views(closed@) == all.skip(
                1,
            ),
            !skipped ==> views(closed@) == all && (all.len() >= 1 ==> trimmed(all[0]).len() > 0),
        decreases side.len() - i,
    {
        proof {
            assert(side@.take(i + 1).drop_last() == side@.take(i as int));
        }
        let c: char = side[i];
        if c == '+' {
            let ghost piece = run@;
            let ghost before = closed@;
            let blank: bool = trim(&run).len() == 0;
            if closed.len() == 0 && !skipped && blank {
                skipped = true;
                proof {
                    assert(all == Seq::<Seq<char>>::empty());
                    all = all.push(piece);
                    assert(views(closed@) == all.skip(1));
                }
            } else {
                closed.push(run);
                proof {
                    all = all.push(piece);
                    assert(views(closed@) == views(before).push(piece));
                    if skipped {
                        assert(views(closed@) == all.skip(1));
                    } else {
                        assert(views(closed@) == all);
                    }
                }
            }
            run = Vec::new();
        } else {
            run.push(c);
        }
        i += 1;
    }
    assert(side@.take(i as int) == side@);
    let ghost before = closed@;
    let ghost piece = run@;
    let ghost pieces = all.push(piece);
    closed.push(run);
    proof {
        assert(views(closed@) == views(before).push(piece));
        if skipped {
            assert(pieces.skip(1) == all.skip(1).push(piece));
            assert(pieces[0] == all[0]);
        } else {
            if all.len() >= 1 {
                assert(pieces[0] == all[0]);
            } else {
                assert(pieces.len() == 1);
            }
        }
    }
    closed
}

fn collect<N: Fn(String) -> Option<Coefficient>, F: Fn(Coefficient, Coefficient) -> Coefficient>(
    texts: &Vec<Vec<char>>,
    number: &N,
    sum: &F,
) -> (r: Result<Polynomial, SyntaxError>)
    requires
        is_reader(*number),
        is_operation(*sum),
    ensures
        match r {
            Ok(p) => collected(views(texts@), *number, *sum) == Ok::<Seq<Term>, Fault>(p.terms@),
            Err(e) => collected(views(texts@), *number, *sum) == Err::<Seq<Term>, Fault>(e@),
        },
        collected_yields(views(texts@), *number, *sum),
{
    let mut p = Polynomial::new();
    let mut i: usize = 0;
    while i < texts.len()
        invariant
            i <= texts.len(),
            is_reader(*number),
            is_operation(*sum),
            collected(views(texts@).take(i as int), *number, *sum) == Ok::<Seq<Term>, Fault>(
                p.terms@,
            ),
            collected_yields(views(texts@).take(i as int), *number, *sum),
        decreases texts.len() - i,
    {
        proof {
            assert(views(texts@).take(i + 1).drop_last() == views(texts@).take(i as int));
            assert(views(texts@).take(i + 1).last() == texts@[i as int]@);
        }
        match parse_chars(&texts[i], number) {
            Ok(t) => {
                p.push_term(t, sum);
            },
            Err(e) => {
                proof {
                    lemma_fault_stays(views(texts@), i + 1, *number, *sum);
                }
                return Err(e);
            },
        }
        i += 1;
    }
    assert(views(texts@).take(i as int) == views(texts@));
    Ok(p)
}

/// Once a prefix of the texts fails, the whole fails with the same fault,
/// and nothing more is read or added.
proof fn lemma_fault_stays<
    N: Fn(String) -> Option<Coefficient>,
    F: Fn(Coefficient, Coefficient) -> Coefficient,
>(texts: Seq<Seq<char>>, k: int, number: N, sum: F)
    requires
        0 <= k <= texts.len(),
        collected(texts.take(k), number, sum) is Err,
    ensures
        collected(texts, number, sum) == collected(texts.take(k), number, sum),
        collected_yields(texts.take(k), number, sum) ==> collected_yields(texts, number, sum),
    decreases texts.len() - k,
{
    if k == texts.len() {
        assert(texts.take(k) == texts);
    } else {
        assert(texts.take(k + 1).drop_last() == texts.take(k));
        lemma_fault_stays(texts, k + 1, number, sum);
    }
}

fn side_of<N: Fn(String) -> Option<Coefficient>, F: Fn(Coefficient, Coefficient) -> Coefficient>(
    v: &Vec<char>,
    from: usize,
    to: usize,
    number: &N,
    sum: &F,
) -> (r: Result<Polynomial, SyntaxError>)
    requires
        from <= to <= v.len(),
        is_reader(*number),
        is_operation(*sum),
    ensures
        match r {
            Ok(p) => collected(
                signed_terms(v@.subrange(from as int, to as int)),
                *number,
                *sum,
            ) == Ok::<Seq<Term>, Fault>(p.terms@),
            Err(e) => collected(
                signed_terms(v@.subrange(from as int, to as int)),
                *number,
                *sum,
            ) == Err::<Seq<Term>, Fault>(e@),
        },
        collected_yields(signed_terms(v@.subrange(from as int, to as int)), *number, *sum),
{
    let marked = make_explicit(v, from, to);
    let joined = attach(&marked);
    let texts = split_terms(&joined);
    collect(&texts, number, sum)
}

/// The signed terms of one side of an equation: every minus sign is set
/// off by a plus sign and attached to what follows it, and the side is cut
/// at the plus signs. A first piece of white space only, in front of a
/// sign, is left out.
pub fn split_signed_terms(side: &str) -> (r: Vec<String>)
    ensures
        texts(r@) == signed_terms(side@),
{
    let v = chars_of(side);
    assert(v@.subrange(0, v@.len() as int) == v@);
    let marked = make_explicit(&v, 0, v.len());
    let joined = attach(&marked);
    let pieces = split_terms(&joined);
    let mut r: Vec<String> = Vec::new();
    let mut i: usize = 0;
    while i < pieces.len()
        invariant
            i <= pieces.len(),
            texts(r@) == views(pieces@).take(i as int),
        decreases pieces.len() - i,
    {
        let mut piece: Vec<char> = Vec::new();
        push_all(&mut piece, &pieces[i]);
        assert(piece@ == pieces@[i as int]@);
        let ghost before = r@;
        r.push(string_of(piece));
        assert(texts(r@) == texts(before).push(pieces@[i as int]@));
        assert(texts(r@) == views(pieces@).take(i + 1));
        i += 1;
    }
    assert(views(pieces@).take(i as int) == views(pieces@));
    r
}

/// Reads an equation such as `5 * X^0 + 4 * X^1 = X^2` and reduces it to
/// the polynomial `left side - right side`, its terms by ascending degree.
/// `number` reads the text of a coefficient; `sum` adds two coefficients.
pub fn parse<N: Fn(String) -> Option<Coefficient>, F: Fn(Coefficient, Coefficient) -> Coefficient>(
    args: &str,
    number: &N,
    sum: &F,
) -> (r: Result<Polynomial, SyntaxError>)
    requires
        is_reader(*number),
        is_operation(*sum),
    ensures
        match r {
            Ok(p) => equation(args@, *number, *sum) == Ok::<Seq<Term>, Fault>(p.terms@)
                && p.well_formed() && ascending(p.terms@),
            Err(e) => equation(args@, *number, *sum) == Err::<Seq<Term>, Fault>(e@),
        },
        equation_yields(args@, *number, *sum),
{
    let raw = chars_of(args);
    let v = to_upper(&trim(&raw));
    if v.len() == 0 {
        return Err(SyntaxError::EmptyInput);
    }
    let (unknowns, _) = occurrences(&v, 'X');
    if unknowns == 0 {
        return Err(SyntaxError::NoUnknown);
    }
    let (signs, at) = occurrences(&v, '=');
    if signs == 0 {
        return Err(SyntaxError::MissingEquals);
    }
    if signs > 1 {
        return Err(SyntaxError::TooManyEquals);
    }
    proof {
        let chosen = choose|i: int| first_of(v@, '=', i);
        assert(first_of(v@, '=', chosen));
        if chosen < at {
            assert(v@[chosen] != '=');
        }
        if at < chosen {
            assert(v@[at as int] != '=');
        }
        assert(v@.take(at as int) == v@.subrange(0, at as int));
        assert(v@.skip(at + 1) == v@.subrange(at + 1, v@.len() as int));
    }
    let lhs = match side_of(&v, 0, at, number, sum) {
        Ok(p) => p,
        Err(e) => {
            return Err(e);
        },
    };
    let rhs = match side_of(&v, at + 1, v.len(), number, sum) {
        Ok(p) => p,
        Err(e) => {
            return Err(e);
        },
    };
    let mut res = lhs.sub(rhs, sum);
    res.sort_by_degree();
    Ok(res)
}

/// The terms collected from texts have distinct degrees.
pub proof fn lemma_collected_distinct<
    N: Fn(String) -> Option<Coefficient>,
    F: Fn(Coefficient, Coefficient) -> Coefficient,
>(texts: Seq<Seq<char>>, number: N, sum: F)
    ensures
        match collected(texts, number, sum) {
            Ok(terms) => distinct_degrees(terms),
            Err(_) => true,
        },
    decreases texts.len(),
{
    if texts.len() > 0 {
        lemma_collected_distinct(texts.drop_last(), number, sum);
        match collected(texts.drop_last(), number, sum) {
            Ok(terms) => match parsed_term(texts.last(), number) {
                Ok(t) => {
                    lemma_inserted_distinct(terms, t, sum);
                },
                Err(_) => {},
            },
            Err(_) => {},
        }
    }
}

} // verus!
