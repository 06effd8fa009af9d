//! Monomials and their syntax.

use vstd::prelude::*;
use crate::coefficient::{is_reader, lemma_read, read_by, reads_text, Coefficient};
use crate::syntax::{Fault, SyntaxError};
use crate::text::{chars_of, is_space, space, starts_with, string_of, trim, trimmed};

verus! {

/// The monomial `coefficient * X^degree`.
#[derive(Debug, Clone, Copy, PartialEq, Eq, Structural)]
pub struct Term {
    pub degree: u8,
    pub coefficient: Coefficient,
}

/// The two texts of a term: its coefficient, and its degree as it stands
/// behind `X^`.
#[derive(Debug, Clone, PartialEq, Eq)]
pub struct TermText {
    pub coefficient: String,
    pub degree: String,
}

/// A multiplication sign: the asterisk or one of its three look-alikes.
pub open spec fn is_star(c: char) -> bool {
    c == '*' || c == '\u{2217}' || c == '\u{2731}' || c == '\u{204E}'
}

/// The text begins or ends with a multiplication sign.
pub open spec fn has_stray(s: Seq<char>) -> bool {
    s.len() > 0 && (is_star(s[0]) || is_star(s.last()))
}

/// Nothing but white space stands between the positions `i` and `j`.
pub open spec fn blank_between(s: Seq<char>, i: int, j: int) -> bool {
    forall|k: int| i < k < j ==> is_space(#[trigger] s[k])
}

/// Two asterisks follow each other with nothing but white space, if
/// anything, between them.
pub open spec fn has_double(s: Seq<char>) -> bool {
    exists|i: int, j: int|
        0 <= i < j < s.len() && s[i] == '*' && s[j] == '*' && #[trigger] blank_between(s, i, j)
}

/// The fragments `fs` with the piece added, trimmed, unless that leaves
/// it empty.
pub open spec fn kept(fs: Seq<Seq<char>>, piece: Seq<char>) -> Seq<Seq<char>> {
    if trimmed(piece).len() > 0 {
        fs.push(trimmed(piece))
    } else {
        fs
    }
}

/// The text read up to its end: the fragments closed by a multiplication
/// sign so far, and the piece behind the last sign.
pub open spec fn scanned(s: Seq<char>) -> (Seq<Seq<char>>, Seq<char>)
    decreases s.len(),
{
    if s.len() == 0 {
        (Seq::<Seq<char>>::empty(), Seq::<char>::empty())
    } else {
        let before = scanned(s.drop_last());
        if is_star(s.last()) {
            (kept(before.0, before.1), Seq::<char>::empty())
        } else {
            (before.0, before.1.push(s.last()))
        }
    }
}

/// The pieces between multiplication signs, each trimmed, without those
/// that hold nothing but white space.
pub open spec fn fragments(s: Seq<char>) -> Seq<Seq<char>> {
    kept(scanned(s).0, scanned(s).1)
}

/// The fragment holds the unknown, in either case.
pub open spec fn has_unknown(f: Seq<char>) -> bool {
    exists|i: int| 0 <= i < f.len() && (#[trigger] f[i] == 'X' || f[i] == 'x')
}

/// The coefficient part and the variable part of a term, from its
/// fragments: a lone fragment is a variable with the coefficient -1 or 1,
/// or a constant of degree zero.
pub open spec fn components(fs: Seq<Seq<char>>) -> Option<(Seq<char>, Seq<char>)> {
    if fs.len() == 1 {
        if starts_with(fs[0], seq!['-', 'X']) {
            Some((seq!['-', '1'], fs[0]))
        } else if has_unknown(fs[0]) {
            Some((seq!['1'], fs[0]))
        } else {
            Some((fs[0], seq!['X', '^', '0']))
        }
    } else if fs.len() == 2 {
        Some((fs[0], fs[1]))
    } else {
        None
    }
}

/// The variable part without a leading minus sign, and with `X` alone
/// written as `X^1`.
pub open spec fn variable(v: Seq<char>) -> Seq<char> {
    let bare = if v.len() > 0 && v[0] == '-' {
        v.skip(1)
    } else {
        v
    };
    if bare == seq!['X'] {
        seq!['X', '^', '1']
    } else {
        bare
    }
}

/// The coefficient text and the degree text of a term, or what is wrong
/// with it.
pub open spec fn term_text(s: Seq<char>) -> Result<(Seq<char>, Seq<char>), Fault> {
    if has_stray(s) {
        Err(Fault::StrayOperator)
    } else if has_double(s) {
        Err(Fault::ConsecutiveOperator)
    } else {
        match components(fragments(s)) {
            None => Err(Fault::InvalidStructure),
            Some(parts) => {
                let x = variable(parts.1);
                if !starts_with(x, seq!['X', '^']) {
                    Err(Fault::MissingPrefix)
                } else if parts.0.len() > 15 {
                    Err(Fault::TooLong)
                } else {
                    Ok((parts.0, x.skip(2)))
                }
            },
        }
    }
}

/// A decimal digit.
pub open spec fn is_digit(c: char) -> bool {
    0x30 <= c as u32 <= 0x39
}

/// The value of a decimal digit, and zero for any other character.
pub open spec fn digit_value(c: char) -> nat {
    if is_digit(c) {
        (c as u32 - 0x30) as nat
    } else {
        0
    }
}

/// The number that a sequence of digits denotes.
pub open spec fn number(ds: Seq<char>) -> nat
    decreases ds.len(),
{
    if ds.len() == 0 {
        0
    } else {
        number(ds.drop_last()) * 10 + digit_value(ds.last())
    }
}

/// Every character is a decimal digit.
pub open spec fn all_digits(ds: Seq<char>) -> bool {
    forall|i: int| 0 <= i < ds.len() ==> is_digit(#[trigger] ds[i])
}

/// The degree that a text denotes: digits, after an optional plus sign,
/// whose number is at most 255.
pub open spec fn degree_value(d: Seq<char>) -> Option<u8> {
    let ds = if d.len() > 0 && d[0] == '+' {
        d.skip(1)
    } else {
        d
    };
    if ds.len() > 0 && all_digits(ds) && number(ds) <= 255 {
        Some(number(ds) as u8)
    } else {
        None
    }
}

/// The term of the two texts, given what reading the coefficient text as
/// a number gave: the coefficient must have been read and be finite, and
/// the degree text must denote a degree.
pub open spec fn finished(
    coefficient: Seq<char>,
    degree: Seq<char>,
    parsed: Option<Coefficient>,
) -> Result<Term, Fault> {
    match parsed {
        Some(c) => if c.is_finite() {
            match degree_value(degree) {
                Some(d) => Ok(Term { degree: d, coefficient: c }),
                None => Err(Fault::InvalidDegree(degree)),
            }
        } else {
            Err(Fault::InvalidCoefficient(coefficient))
        },
        None => Err(Fault::InvalidCoefficient(coefficient)),
    }
}

/// The term that a text denotes under a reading of numbers, or what is
/// wrong with the text.
pub open spec fn parsed_term<N: Fn(String) -> Option<Coefficient>>(
    s: Seq<char>,
    number: N,
) -> Result<Term, Fault> {
    match term_text(s) {
        Err(f) => Err(f),
        Ok(parts) => finished(parts.0, parts.1, read_by(number, parts.0)),
    }
}

/// Where the text has a coefficient part, the reading has a result on it.
pub open spec fn term_read<N: Fn(String) -> Option<Coefficient>>(s: Seq<char>, number: N) -> bool {
    match term_text(s) {
        Err(_) => true,
        Ok(parts) => reads_text(number, parts.0),
    }
}

/// A result with its error taken by its view.
pub open spec fn outcome<T>(r: Result<T, SyntaxError>) -> Result<T, Fault> {
    match r {
        Ok(t) => Ok(t),
        Err(e) => Err(e@),
    }
}

/// Whether the character is a multiplication sign.
pub fn star(c: char) -> (b: bool)
    ensures
        b == is_star(c),
{
    c == '*' || c == '\u{2217}' || c == '\u{2731}' || c == '\u{204E}'
}

fn double_star(v: &Vec<char>) -> (b: bool)
    ensures
        b == has_double(v@),
{
    let mut armed: bool = false;
    let mut at: usize = 0;
    let mut i: usize = 0;
    while i < v.len()
        invariant
            i <= v.len(),
            armed ==> at < i && v@[at as int] == '*' && blank_between(v@, at as int, i as int),
            !armed ==> forall|p: int|
                0 <= p < i && v@[p] == '*' ==> !#[trigger] blank_between(v@, p, i as int),
            forall|p: int, q: int|
                0 <= p < q < i && v@[p] == '*' && v@[q] == '*' ==> !#[trigger] blank_between(
                    v@,
                    p,
                    q,
                ),
        decreases v.len() - i,
    {
        let c: char = v[i];
        if c == '*' {
            if armed {
                assert(blank_between(v@, at as int, i as int));
                return true;
            }
            armed = true;
            at = i;
        } else if space(c) {
            proof {
                if !armed {
                    assert forall|p: int| 0 <= p < i + 1 && v@[p] == '*' implies !#[trigger] blank_between(
                        v@,
                        p,
                        i + 1,
                    ) by {
                        assert(!blank_between(v@, p, i as int));
                        let k = choose|k: int| p < k < i && !is_space(#[trigger] v@[k]);
                        assert(!is_space(v@[k]));
                    }
                }
            }
        } else {
            armed = false;
            proof {
                assert forall|p: int| 0 <= p < i + 1 && v@[p] == '*' implies !#[trigger] blank_between(
                    v@,
                    p,
                    i + 1,
                ) by {
                    assert(!is_space(v@[i as int]));
                }
            }
        }
        i += 1;
    }
    false
}

fn unknown_in(v: &Vec<char>) -> (b: bool)
    ensures
        b == has_unknown(v@),
{
    let mut i: usize = 0;
    while i < v.len()
        invariant
            i <= v.len(),
            forall|j: int| 0 <= j < i ==> !(#[trigger] v@[j] == 'X' || v@[j] == 'x'),
        decreases v.len() - i,
    {
        if v[i] == 'X' || v[i] == 'x' {
            return true;
        }
        i += 1;
    }
    false
}

fn tail(v: &Vec<char>, from: usize) -> (r: Vec<char>)
    requires
        from <= v.len(),
    ensures
        r@ == v@.skip(from as int),
{
    let mut r: Vec<char> = Vec::new();
    let mut i: usize = from;
    while i < v.len()
        invariant
            from <= i <= v.len(),
            r@ == v@.skip(from as int).take(i - from),
        decreases v.len() - i,
    {
        r.push(v[i]);
        assert(v@.skip(from as int).take(i - from).push(v@[i as int]) == v@.skip(from as int).take(
            i - from + 1,
        ));
        i += 1;
    }
    assert(v@.skip(from as int).take(v.len() - from) == v@.skip(from as int));
    r
}

/// The number of fragments of a text, counted up to three, and the first
/// two of them.
fn split(v: &Vec<char>) -> (r: (usize, Vec<char>, Vec<char>))
    ensures
        r.0 <= 3,
        fragments(v@).len() <= 2 ==> r.0 == fragments(v@).len(),
        fragments(v@).len() > 2 ==> r.0 == 3,
        r.0 >= 1 ==> r.1@ == fragments(v@)[0],
        r.0 >= 2 ==> r.2@ == fragments(v@)[1],
{
    let mut count: usize = 0;
    let mut first: Vec<char> = Vec::new();
    let mut second: Vec<char> = Vec::new();
    let mut run: Vec<char> = Vec::new();
    let mut i: usize = 0;
    while i < v.len()
        invariant
            i <= v.len(),
            count <= 3,
            scanned(v@.take(i as int)).0.len() <= 2 ==> count == scanned(v@.take(i as int)).0.len(),
            scanned(v@.take(i as int)).0.len() > 2 ==> count == 3,
            run@ == scanned(v@.take(i as int)).1,
            count >= 1 ==> first@ == scanned(v@.take(i as int)).0[0],
            count >= 2 ==> second@ == scanned(v@.take(i as int)).0[1],
        decreases v.len() - i,
    {
        proof {
            assert(v@.take(i + 1).drop_last() == v@.take(i as int));
        }
        let c: char = v[i];
        if star(c) {
            let piece = trim(&run);
            if piece.len() > 0 {
                if count == 0 {
                    first = piece;
                } else if count == 1 {
                    second = piece;
                }
                if count < 3 {
                    count += 1;
                }
            }
            run = Vec::new();
        } else {
            run.push(c);
        }
        i += 1;
    }
    assert(v@.take(i as int) == v@);
    let piece = trim(&run);
    if piece.len() > 0 {
        if count == 0 {
            first = piece;
        } else if count == 1 {
            second = piece;
        }
        if count < 3 {
            count += 1;
        }
    }
    (count, first, second)
}

fn scan_chars(v: &Vec<char>) -> (r: Result<(Vec<char>, Vec<char>), SyntaxError>)
    ensures
        match r {
            Ok(parts) => term_text(v@) == Ok::<(Seq<char>, Seq<char>), Fault>(
                (parts.0@, parts.1@),
            ),
            Err(e) => term_text(v@) == Err::<(Seq<char>, Seq<char>), Fault>(e@),
        },
{
    let n: usize = v.len();
    if n > 0 && (star(v[0]) || star(v[n - 1])) {
        return Err(SyntaxError::StrayOperator);
    }
    if double_star(v) {
        return Err(SyntaxError::ConsecutiveOperator);
    }
    let (count, first, second) = split(v);
    let coefficient: Vec<char>;
    let part: Vec<char>;
    if count == 1 {
        if first.len() >= 2 && first[0] == '-' && first[1] == 'X' {
            assert(first@.take(2) == seq!['-', 'X']);
            coefficient = vec!['-', '1'];
            part = first;
        } else if unknown_in(&first) {
            assert(first@.len() >= 2 ==> first@.take(2)[0] == first@[0] && first@.take(2)[1]
                == first@[1]);
            coefficient = vec!['1'];
            part = first;
        } else {
            assert(first@.len() >= 2 ==> first@.take(2)[0] == first@[0] && first@.take(2)[1]
                == first@[1]);
            coefficient = first;
            part = vec!['X', '^', '0'];
        }
    } else if count == 2 {
        coefficient = first;
        part = second;
    } else {
        return Err(SyntaxError::InvalidStructure);
    }
    assert(components(fragments(v@)) == Some((coefficient@, part@)));
    let bare: Vec<char> = if part.len() > 0 && part[0] == '-' {
        tail(&part, 1)
    } else {
        part
    };
    let x: Vec<char> = if bare.len() == 1 && bare[0] == 'X' {
        assert(bare@ == seq!['X']);
        vec!['X', '^', '1']
    } else {
        assert(bare@ == seq!['X'] ==> bare@.len() == 1 && bare@[0] == 'X');
        bare
    };
    assert(x@ == variable(part@));
    if !(x.len() >= 2 && x[0] == 'X' && x[1] == '^') {
        assert(x@.len() >= 2 ==> x@.take(2)[0] == x@[0] && x@.take(2)[1] == x@[1]);
        return Err(SyntaxError::MissingPrefix);
    }
    assert(x@.take(2) == seq!['X', '^']);
    if coefficient.len() > 15 {
        return Err(SyntaxError::TooLong);
    }
    let degree = tail(&x, 2);
    Ok((coefficient, degree))
}

/// The number of a prefix of a digit sequence is at most the number of
/// the whole.
proof fn lemma_number_grows(ds: Seq<char>, k: int)
    requires
        0 <= k <= ds.len(),
    ensures
        number(ds.take(k)) <= number(ds),
    decreases ds.len() - k,
{
    if k == ds.len() {
        assert(ds.take(k) == ds);
    } else {
        lemma_number_grows(ds, k + 1);
        assert(ds.take(k + 1).drop_last() == ds.take(k));
    }
}

fn degree_of(d: &Vec<char>) -> (r: Option<u8>)
    ensures
        r == degree_value(d@),
{
    let start: usize = if d.len() > 0 && d[0] == '+' {
        1
    } else {
        0
    };
    let ghost ds = d@.skip(start as int);
    if start == 0 {
        assert(ds == d@);
    }
    if d.len() == start {
        return None;
    }
    let mut value: u32 = 0;
    let mut i: usize = start;
    while i < d.len()
        invariant
            start <= i <= d.len(),
            ds == d@.skip(start as int),
            ds == if d@.len() > 0 && d@[0] == '+' {
                d@.skip(1)
            } else {
                d@
            },
            value == number(ds.take(i - start)),
            value <= 255,
            forall|j: int| 0 <= j < i - start ==> is_digit(#[trigger] ds[j]),
        decreases d.len() - i,
    {
        let c: char = d[i];
        let u: u32 = c as u32;
        assert(ds[i - start] == c);
        if !(0x30 <= u && u <= 0x39) {
            assert(!is_digit(ds[i - start]));
            return None;
        }
        assert(is_digit(c) && digit_value(c) == u - 0x30);
        proof {
            assert(ds.take(i - start + 1).drop_last() == ds.take(i - start));
            assert(ds.take(i - start + 1).last() == c);
        }
        value = value * 10 + (u - 0x30);
        if value > 255 {
            proof {
                lemma_number_grows(ds, i - start + 1);
            }
            return None;
        }
        i += 1;
    }
    assert(ds.take(i - start) == ds);
    Some(value as u8)
}

/// Reads one term from its characters.
pub(crate) fn parse_chars<N: Fn(String) -> Option<Coefficient>>(v: &Vec<char>, number: &N) -> (r:
    Result<Term, SyntaxError>)
    requires
        is_reader(*number),
    ensures
        outcome(r) == parsed_term(v@, *number),
        term_read(v@, *number),
        r is Ok ==> r.unwrap().coefficient.is_finite(),
{
    match scan_chars(v) {
        Ok(parts) => {
            let text = TermText { coefficient: string_of(parts.0), degree: string_of(parts.1) };
            let given = text.coefficient.clone();
            let parsed = number(given);
            proof {
                lemma_read(*number, given, parsed);
            }
            Term::finish(text, parsed)
        },
        Err(e) => Err(e),
    }
}

impl Term {
    /// The same monomial with the opposite sign.
    pub open spec fn negated(self) -> Term {
        Term { degree: self.degree, coefficient: self.coefficient.negated() }
    }

    /// Splits a term into the text of its coefficient and the text of its
    /// degree, or says what is wrong with it.
    pub fn scan(term: &str) -> (r: Result<TermText, SyntaxError>)
        ensures
            match r {
                Ok(t) => term_text(term@) == Ok::<(Seq<char>, Seq<char>), Fault>(
                    (t.coefficient@, t.degree@),
                ),
                Err(e) => term_text(term@) == Err::<(Seq<char>, Seq<char>), Fault>(e@),
            },
    {
        let v = chars_of(term);
        match scan_chars(&v) {
            Ok(parts) => Ok(
                TermText { coefficient: string_of(parts.0), degree: string_of(parts.1) },
            ),
            Err(e) => Err(e),
        }
    }

    /// The term of the two texts, given what reading the coefficient text
    /// as a number gave (`None` where it is no number).
    pub fn finish(text: TermText, parsed: Option<Coefficient>) -> (r: Result<Term, SyntaxError>)
        ensures
            outcome(r) == finished(text.coefficient@, text.degree@, parsed),
            r is Ok ==> r.unwrap().coefficient.is_finite(),
    {
        match parsed {
            Some(c) => {
                if c.finite() {
                    let d = chars_of(text.degree.as_str());
                    match degree_of(&d) {
                        Some(degree) => Ok(Term { degree, coefficient: c }),
                        None => Err(SyntaxError::InvalidDegree(text.degree)),
                    }
                } else {
                    Err(SyntaxError::InvalidCoefficient(text.coefficient))
                }
            },
            None => Err(SyntaxError::InvalidCoefficient(text.coefficient)),
        }
    }

    /// Reads one term, such as `3 * X^2`, `X`, `-X^2` or `42`. The text of
    /// the coefficient is handed to `number`, which reads it as a number.
    pub fn parse<N: Fn(String) -> Option<Coefficient>>(term: &str, number: &N) -> (r: Result<
        Term,
        SyntaxError,
    >)
        requires
            is_reader(*number),
        ensures
            outcome(r) == parsed_term(term@, *number),
            term_read(term@, *number),
            r is Ok ==> r.unwrap().coefficient.is_finite(),
    {
        let v = chars_of(term);
        parse_chars(&v, number)
    }
}

} // verus!
