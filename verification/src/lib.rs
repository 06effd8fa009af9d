//! Polynomial equations in one unknown `X`: the syntax of terms and
//! equations, polynomials as sequences of terms, the reduction of an
//! equation to `polynomial = 0`, its two written forms, and its solution up
//! to degree two.
//!
//! A coefficient is an IEEE-754 binary64 number, held as its bit pattern.
//! What the library decides about a coefficient (its sign, whether it is
//! zero, one or minus one, whether it is finite) and its negation are
//! computed on that pattern. Rounding arithmetic, the reading of a number
//! from text and its display are the caller's: the functions that need
//! them take them as parameters, and their contracts say which results of
//! those parameters go where.

pub mod text;
pub mod syntax;
pub mod fraction;
pub mod complex;
pub mod format;
pub mod exact;
pub mod coefficient;
pub mod term;
pub mod polynomial;
pub mod laws;
pub mod order;
pub mod fragments;
pub mod round_trip;
pub mod render;
pub mod solver;
pub mod narrative;
pub mod parser;
