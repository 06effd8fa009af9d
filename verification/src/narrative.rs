//! The lines that report how an equation was solved.

use vstd::prelude::*;
use crate::coefficient::{is_display, lemma_shown, shown_by, shows_text, Coefficient};
use crate::render::push_shown;
use crate::solver::Answer;
use crate::text::{push_str, string_of, texts};

verus! {

/// The line that states the discriminant.
pub open spec fn discriminant_line<D: Fn(Coefficient) -> String>(
    a: Coefficient,
    b: Coefficient,
    c: Coefficient,
    d: Coefficient,
    show: D,
) -> Seq<char> {
    "\x1b[33m[ INTERMEDIATE STEP ] Discriminant = "@ + shown_by(show, b) + "^2 - 4 * "@ + shown_by(
        show,
        a,
    ) + " * "@ + shown_by(show, c) + " = "@ + shown_by(show, d) + "\x1b[0m"@
}

/// The line that states the formula of the roots, behind its heading.
pub open spec fn formula_line<D: Fn(Coefficient) -> String>(
    heading: Seq<char>,
    a: Coefficient,
    b: Coefficient,
    d: Coefficient,
    show: D,
) -> Seq<char> {
    heading + shown_by(show, b.absolute()) + " - sqrt("@ + shown_by(show, d) + ") / (2 * "@
        + shown_by(show, a) + ")\x1b[0m"@
}

/// The lines for an answer: the steps that led to it in terms of the
/// coefficients, as `show` writes them, a sentence that names the case,
/// and each root as `write` writes it.
pub open spec fn narrative<D: Fn(Coefficient) -> String, W: Fn(Coefficient) -> String>(
    answer: Answer,
    show: D,
    write: W,
) -> Seq<Seq<char>> {
    match answer {
        Answer::TooHigh => seq![
            "The polynomial degree is strictly greater than 2, I can't solve."@,
        ],
        Answer::Identity => seq!["Any real number is a solution."@],
        Answer::Contradiction => seq!["No Solution."@],
        Answer::One { a, b, root } => seq![
            "\x1b[33m[ INTERMEDIATE STEP ] "@ + shown_by(show, a) + " * X^1 = "@ + shown_by(
                show,
                b.negated(),
            ) + " * X^0\x1b[0m"@,
            "\x1b[33m[ INTERMEDIATE STEP ] X = "@ + shown_by(show, b.negated()) + " / "@
                + shown_by(show, a) + "\x1b[0m"@,
            "The solution is:"@,
            shown_by(write, root),
        ],
        Answer::Two { a, b, c, discriminant, first, second } => seq![
            discriminant_line(a, b, c, discriminant, show),
            formula_line("\x1b[33m[ INTERMEDIATE STEP] X = ±"@, a, b, discriminant, show),
            "The discriminant is strictly positive, the two solutions are:"@,
            shown_by(write, first),
            shown_by(write, second),
        ],
        Answer::Conjugate { a, b, c, discriminant, re, im } => seq![
            discriminant_line(a, b, c, discriminant, show),
            formula_line("\x1b[33m[ INTERMEDIATE STEP ] X = ±"@, a, b, discriminant, show),
            "The discriminant is strictly negative, the two solutions are:"@,
            shown_by(write, re) + " + "@ + shown_by(write, im) + "i"@,
            shown_by(write, re) + " - "@ + shown_by(write, im) + "i"@,
        ],
        Answer::Repeated { a, b, c, discriminant, root } => seq![
            discriminant_line(a, b, c, discriminant, show),
            formula_line("\x1b[33m[ INTERMEDIATE STEP ] X = ±"@, a, b, discriminant, show),
            "The discriminant is strictly zero, the only solution is:"@,
            shown_by(write, root),
        ],
        Answer::Undefined { a, b, c, discriminant } => seq![
            discriminant_line(a, b, c, discriminant, show),
        ],
    }
}

/// The displays have a text for every number that the lines show.
pub open spec fn narrative_shown<D: Fn(Coefficient) -> String, W: Fn(Coefficient) -> String>(
    answer: Answer,
    show: D,
    write: W,
) -> bool {
    match answer {
        Answer::TooHigh => true,
        Answer::Identity => true,
        Answer::Contradiction => true,
        Answer::One { a, b, root } => {
            &&& shows_text(show, a)
            &&& shows_text(show, b.negated())
            &&& shows_text(write, root)
        },
        Answer::Two { a, b, c, discriminant, first, second } => {
            &&& shows_text(show, a)
            &&& shows_text(show, b)
            &&& shows_text(show, b.absolute())
            &&& shows_text(show, c)
            &&& shows_text(show, discriminant)
            &&& shows_text(write, first)
            &&& shows_text(write, second)
        },
        Answer::Conjugate { a, b, c, discriminant, re, im } => {
            &&& shows_text(show, a)
            &&& shows_text(show, b)
            &&& shows_text(show, b.absolute())
            &&& shows_text(show, c)
            &&& shows_text(show, discriminant)
            &&& shows_text(write, re)
            &&& shows_text(write, im)
        },
        Answer::Repeated { a, b, c, discriminant, root } => {
            &&& shows_text(show, a)
            &&& shows_text(show, b)
            &&& shows_text(show, b.absolute())
            &&& shows_text(show, c)
            &&& shows_text(show, discriminant)
            &&& shows_text(write, root)
        },
        Answer::Undefined { a, b, c, discriminant } => {
            &&& shows_text(show, a)
            &&& shows_text(show, b)
            &&& shows_text(show, c)
            &&& shows_text(show, discriminant)
        },
    }
}

fn line_of(text: &str) -> (s: String)
    ensures
        s@ == text@,
{
    String::from_str(text)
}

fn shown_line<D: Fn(Coefficient) -> String>(c: Coefficient, write: &D) -> (s: String)
    requires
        is_display(*write),
    ensures
        s@ == shown_by(*write, c),
        shows_text(*write, c),
{
    let s: String = write(c);
    proof {
        lemma_shown(*write, c, s);
    }
    s
}

fn discriminant_text<D: Fn(Coefficient) -> String>(
    a: Coefficient,
    b: Coefficient,
    c: Coefficient,
    d: Coefficient,
    show: &D,
) -> (s: String)
    requires
        is_display(*show),
    ensures
        s@ == discriminant_line(a, b, c, d, *show),
        shows_text(*show, a) && shows_text(*show, b) && shows_text(*show, c) && shows_text(
            *show,
            d,
        ),
{
    let mut out: Vec<char> = Vec::new();
    push_str(&mut out, "\x1b[33m[ INTERMEDIATE STEP ] Discriminant = ");
    push_shown(&mut out, b, show);
    push_str(&mut out, "^2 - 4 * ");
    push_shown(&mut out, a, show);
    push_str(&mut out, " * ");
    push_shown(&mut out, c, show);
    push_str(&mut out, " = ");
    push_shown(&mut out, d, show);
    push_str(&mut out, "\x1b[0m");
    assert(out@ == discriminant_line(a, b, c, d, *show));
    string_of(out)
}

fn formula_text<D: Fn(Coefficient) -> String>(
    heading: &str,
    a: Coefficient,
    b: Coefficient,
    d: Coefficient,
    show: &D,
) -> (s: String)
    requires
        is_display(*show),
    ensures
        s@ == formula_line(heading@, a, b, d, *show),
        shows_text(*show, b.absolute()),
{
    let mut out: Vec<char> = Vec::new();
    push_str(&mut out, heading);
    push_shown(&mut out, b.abs(), show);
    push_str(&mut out, " - sqrt(");
    push_shown(&mut out, d, show);
    push_str(&mut out, ") / (2 * ");
    push_shown(&mut out, a, show);
    push_str(&mut out, ")\x1b[0m");
    assert(out@ == formula_line(heading@, a, b, d, *show));
    string_of(out)
}

fn pair_text<W: Fn(Coefficient) -> String>(re: Coefficient, sign: &str, im: Coefficient, write: &W) -> (s:
    String)
    requires
        is_display(*write),
    ensures
        s@ == shown_by(*write, re) + sign@ + shown_by(*write, im) + "i"@,
        shows_text(*write, re) && shows_text(*write, im),
{
    let mut out: Vec<char> = Vec::new();
    push_shown(&mut out, re, write);
    push_str(&mut out, sign);
    push_shown(&mut out, im, write);
    push_str(&mut out, "i");
    assert(out@ == shown_by(*write, re) + sign@ + shown_by(*write, im) + "i"@);
    string_of(out)
}

impl Answer {
    /// The lines that report the answer. `show` writes a coefficient in a
    /// step; `write` writes a root.
    pub fn report<D: Fn(Coefficient) -> String, W: Fn(Coefficient) -> String>(
        &self,
        show: &D,
        write: &W,
    ) -> (lines: Vec<String>)
        requires
            is_display(*show),
            is_display(*write),
        ensures
            texts(lines@) == narrative(*self, *show, *write),
            narrative_shown(*self, *show, *write),
    {
        let mut lines: Vec<String> = Vec::new();
        match *self {
            Answer::TooHigh => {
                lines.push(
                    line_of("The polynomial degree is strictly greater than 2, I can't solve."),
                );
            },
            Answer::Identity => {
                lines.push(line_of("Any real number is a solution."));
            },
            Answer::Contradiction => {
                lines.push(line_of("No Solution."));
            },
            Answer::One { a, b, root } => {
                let mut first: Vec<char> = Vec::new();
                push_str(&mut first, "\x1b[33m[ INTERMEDIATE STEP ] ");
                push_shown(&mut first, a, show);
                push_str(&mut first, " * X^1 = ");
                push_shown(&mut first, b.negate(), show);
                push_str(&mut first, " * X^0\x1b[0m");
                let mut second: Vec<char> = Vec::new();
                push_str(&mut second, "\x1b[33m[ INTERMEDIATE STEP ] X = ");
                push_shown(&mut second, b.negate(), show);
                push_str(&mut second, " / ");
                push_shown(&mut second, a, show);
                push_str(&mut second, "\x1b[0m");
                lines.push(string_of(first));
                lines.push(string_of(second));
                lines.push(line_of("The solution is:"));
                lines.push(shown_line(root, write));
            },
            Answer::Two { a, b, c, discriminant, first, second } => {
                lines.push(discriminant_text(a, b, c, discriminant, show));
                lines.push(
                    formula_text("\x1b[33m[ INTERMEDIATE STEP] X = ±", a, b, discriminant, show),
                );
                lines.push(
                    line_of("The discriminant is strictly positive, the two solutions are:"),
                );
                lines.push(shown_line(first, write));
                lines.push(shown_line(second, write));
            },
            Answer::Conjugate { a, b, c, discriminant, re, im } => {
                lines.push(discriminant_text(a, b, c, discriminant, show));
                lines.push(
                    formula_text("\x1b[33m[ INTERMEDIATE STEP ] X = ±", a, b, discriminant, show),
                );
                lines.push(
                    line_of("The discriminant is strictly negative, the two solutions are:"),
                );
                lines.push(pair_text(re, " + ", im, write));
                lines.push(pair_text(re, " - ", im, write));
            },
            Answer::Repeated { a, b, c, discriminant, root } => {
                lines.push(discriminant_text(a, b, c, discriminant, show));
                lines.push(
                    formula_text("\x1b[33m[ INTERMEDIATE STEP ] X = ±", a, b, discriminant, show),
                );
                lines.push(line_of("The discriminant is strictly zero, the only solution is:"));
                lines.push(shown_line(root, write));
            },
            Answer::Undefined { a, b, c, discriminant } => {
                lines.push(discriminant_text(a, b, c, discriminant, show));
            },
        }
        assert(texts(lines@) == narrative(*self, *show, *write));
        lines
    }
}

} // verus!
