//! Pairs of a real and an imaginary part.

use vstd::prelude::*;
use crate::text::{decimal, push_decimal, push_signed_decimal, signed_decimal, string_of};

verus! {

/// The complex number `re + im * i`.
#[derive(Debug, Clone, Copy, PartialEq, Eq)]
pub struct Complex<T> {
    pub re: T,
    pub im: T,
}

/// How a complex number with integer parts is written: the real part
/// alone where the imaginary part is zero, the imaginary part alone where
/// the real part is zero, and otherwise both, joined by the sign of the
/// imaginary part.
pub open spec fn complex_text(z: Complex<i64>) -> Seq<char> {
    if z.im == 0 {
        signed_decimal(z.re as int)
    } else if z.re == 0 {
        signed_decimal(z.im as int) + seq!['i']
    } else if z.im > 0 {
        signed_decimal(z.re as int) + seq![' ', '+', ' '] + signed_decimal(z.im as int) + seq![
            'i',
        ]
    } else {
        signed_decimal(z.re as int) + seq![' ', '-', ' '] + decimal((-z.im) as nat) + seq!['i']
    }
}

impl Complex<i64> {
    /// The number as text.
    pub fn to_text(&self) -> (s: String)
        ensures
            s@ == complex_text(*self),
    {
        let mut out: Vec<char> = Vec::new();
        if self.im == 0 {
            push_signed_decimal(&mut out, self.re);
            assert(out@ == complex_text(*self));
        } else if self.re == 0 {
            push_signed_decimal(&mut out, self.im);
            out.push('i');
            assert(out@ == complex_text(*self));
        } else if self.im > 0 {
            push_signed_decimal(&mut out, self.re);
            out.push(' ');
            out.push('+');
            out.push(' ');
            push_signed_decimal(&mut out, self.im);
            out.push('i');
            assert(out@ == complex_text(*self));
        } else {
            push_signed_decimal(&mut out, self.re);
            out.push(' ');
            out.push('-');
            out.push(' ');
            let m: u64 = ((-(self.im + 1)) as u64) + 1;
            push_decimal(&mut out, m);
            out.push('i');
            assert(out@ == complex_text(*self));
        }
        string_of(out)
    }
}

} // verus!
