//! The ways in which an equation or one of its terms can be malformed.

use vstd::prelude::*;

verus! {

/// A malformed term or equation.
#[derive(Debug, Clone, PartialEq, Eq)]
pub enum SyntaxError {
    /// A multiplication sign at the start or the end of a term.
    StrayOperator,
    /// Two asterisks with nothing but white space, if anything, between them.
    ConsecutiveOperator,
    /// A term with no part, or with more than two parts.
    InvalidStructure,
    /// The part that names the unknown does not begin with `X^`.
    MissingPrefix,
    /// The coefficient is written with more than fifteen characters.
    TooLong,
    /// The coefficient, given here, is no finite number.
    InvalidCoefficient(String),
    /// The degree, given here, is no number from 0 to 255.
    InvalidDegree(String),
    /// The equation is empty.
    EmptyInput,
    /// The equation does not hold the unknown.
    NoUnknown,
    /// The equation holds no `=`.
    MissingEquals,
    /// The equation holds more than one `=`.
    TooManyEquals,
}

/// A syntax error, with the texts it names as character sequences.
pub enum Fault {
    StrayOperator,
    ConsecutiveOperator,
    InvalidStructure,
    MissingPrefix,
    TooLong,
    InvalidCoefficient(Seq<char>),
    InvalidDegree(Seq<char>),
    EmptyInput,
    NoUnknown,
    MissingEquals,
    TooManyEquals,
}

impl View for SyntaxError {
    type V = Fault;

    open spec fn view(&self) -> Fault {
        match self {
            SyntaxError::StrayOperator => Fault::StrayOperator,
            SyntaxError::ConsecutiveOperator => Fault::ConsecutiveOperator,
            SyntaxError::InvalidStructure => Fault::InvalidStructure,
            SyntaxError::MissingPrefix => Fault::MissingPrefix,
            SyntaxError::TooLong => Fault::TooLong,
            SyntaxError::InvalidCoefficient(s) => Fault::InvalidCoefficient(s@),
            SyntaxError::InvalidDegree(s) => Fault::InvalidDegree(s@),
            SyntaxError::EmptyInput => Fault::EmptyInput,
            SyntaxError::NoUnknown => Fault::NoUnknown,
            SyntaxError::MissingEquals => Fault::MissingEquals,
            SyntaxError::TooManyEquals => Fault::TooManyEquals,
        }
    }
}

/// The sentence that reports a fault.
pub open spec fn sentence(f: Fault) -> Seq<char> {
    match f {
        Fault::StrayOperator => "syntax: stray '*' at start or end of term!"@,
        Fault::ConsecutiveOperator => "syntax: consecutive '*' found!"@,
        Fault::InvalidStructure => "syntax: invalid term structure!"@,
        Fault::MissingPrefix => "syntax: expected prefix 'X^'"@,
        Fault::TooLong => "number too long for this program to preserve precision"@,
        Fault::InvalidCoefficient(s) => "invalid coefficient '"@ + s + "'"@,
        Fault::InvalidDegree(s) => "invalid degree '"@ + s + "'"@,
        Fault::EmptyInput => "empty input!"@,
        Fault::NoUnknown => "no unknown variable X (or x) to solve!"@,
        Fault::MissingEquals => "syntax: missing '=' symbol!"@,
        Fault::TooManyEquals => "syntax: too many '=' symbols!"@,
    }
}

impl SyntaxError {
    /// The sentence that reports the error.
    pub fn message(&self) -> (m: String)
        ensures
            m@ == sentence(self@),
    {
        match self {
            SyntaxError::StrayOperator => String::from_str(
                "syntax: stray '*' at start or end of term!",
            ),
            SyntaxError::ConsecutiveOperator => String::from_str("syntax: consecutive '*' found!"),
            SyntaxError::InvalidStructure => String::from_str("syntax: invalid term structure!"),
            SyntaxError::MissingPrefix => String::from_str("syntax: expected prefix 'X^'"),
            SyntaxError::TooLong => String::from_str(
                "number too long for this program to preserve precision",
            ),
            SyntaxError::InvalidCoefficient(s) => {
                let mut m = String::from_str("invalid coefficient '");
                m.append(s.as_str());
                m.append("'");
                m
            },
            SyntaxError::InvalidDegree(s) => {
                let mut m = String::from_str("invalid degree '");
                m.append(s.as_str());
                m.append("'");
                m
            },
            SyntaxError::EmptyInput => String::from_str("empty input!"),
            SyntaxError::NoUnknown => String::from_str("no unknown variable X (or x) to solve!"),
            SyntaxError::MissingEquals => String::from_str("syntax: missing '=' symbol!"),
            SyntaxError::TooManyEquals => String::from_str("syntax: too many '=' symbols!"),
        }
    }
}

} // verus!
