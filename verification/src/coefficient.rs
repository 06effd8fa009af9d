//! Coefficients: IEEE-754 binary64 values read through their bit pattern.

use vstd::prelude::*;

verus! {

/// The pattern's sign bit.
pub const SIGN_BIT: u64 = 0x8000_0000_0000_0000;

/// The magnitude pattern of positive infinity; every larger magnitude is a
/// NaN, every smaller one a finite number.
pub const INFINITY: u64 = 0x7FF0_0000_0000_0000;

/// The pattern of the number one.
pub const ONE: u64 = 0x3FF0_0000_0000_0000;

/// How a coefficient compares with zero.
#[derive(Debug, Clone, Copy, PartialEq, Eq, Structural)]
pub enum Sign {
    Negative,
    Zero,
    Positive,
    /// The value is not a number and compares with nothing.
    Unordered,
}

/// A binary64 value, held as its 64-bit pattern: one sign bit, then the
/// magnitude (exponent and fraction).
#[derive(Debug, Clone, Copy, PartialEq, Eq, Structural)]
pub struct Coefficient {
    pub bits: u64,
}

impl Coefficient {
    /// The pattern without its sign bit.
    pub open spec fn magnitude(self) -> int {
        if self.bits >= SIGN_BIT {
            self.bits - SIGN_BIT
        } else {
            self.bits as int
        }
    }

    /// The sign bit is set.
    pub open spec fn signed(self) -> bool {
        self.bits >= SIGN_BIT
    }

    /// The value is zero, of either sign.
    pub open spec fn is_zero(self) -> bool {
        self.magnitude() == 0
    }

    /// The value is not a number.
    pub open spec fn is_nan(self) -> bool {
        self.magnitude() > INFINITY
    }

    /// The value is neither infinite nor a NaN.
    pub open spec fn is_finite(self) -> bool {
        self.magnitude() < INFINITY
    }

    /// The value is exactly one.
    pub open spec fn is_one(self) -> bool {
        self.bits == ONE
    }

    /// The value is exactly minus one.
    pub open spec fn is_minus_one(self) -> bool {
        self.bits == ONE + SIGN_BIT
    }

    /// How the value compares with zero.
    pub open spec fn sign(self) -> Sign {
        if self.is_nan() {
            Sign::Unordered
        } else if self.is_zero() {
            Sign::Zero
        } else if self.signed() {
            Sign::Negative
        } else {
            Sign::Positive
        }
    }

    /// The value with its sign bit flipped.
    pub open spec fn negated(self) -> Coefficient {
        if self.bits >= SIGN_BIT {
            Coefficient { bits: (self.bits - SIGN_BIT) as u64 }
        } else {
            Coefficient { bits: (self.bits + SIGN_BIT) as u64 }
        }
    }

    /// The value without its sign.
    pub open spec fn absolute(self) -> Coefficient {
        Coefficient { bits: self.magnitude() as u64 }
    }

    /// The coefficient with the given pattern.
    pub fn from_bits(bits: u64) -> (c: Coefficient)
        ensures
            c.bits == bits,
    {
        Coefficient { bits }
    }

    /// Positive zero.
    pub fn zero() -> (c: Coefficient)
        ensures
            c.bits == 0,
            c.is_zero(),
    {
        Coefficient { bits: 0 }
    }

    fn magnitude_bits(&self) -> (m: u64)
        ensures
            m == self.magnitude(),
    {
        if self.bits >= SIGN_BIT {
            self.bits - SIGN_BIT
        } else {
            self.bits
        }
    }

    /// Whether the value is zero, of either sign.
    pub fn zero_valued(&self) -> (b: bool)
        ensures
            b == self.is_zero(),
    {
        self.magnitude_bits() == 0
    }

    /// Whether the value is neither infinite nor a NaN.
    pub fn finite(&self) -> (b: bool)
        ensures
            b == self.is_finite(),
    {
        self.magnitude_bits() < INFINITY
    }

    /// Whether the value is exactly one.
    pub fn unit(&self) -> (b: bool)
        ensures
            b == self.is_one(),
    {
        self.bits == ONE
    }

    /// Whether the value is exactly minus one.
    pub fn minus_unit(&self) -> (b: bool)
        ensures
            b == self.is_minus_one(),
    {
        self.bits == ONE + SIGN_BIT
    }

    /// How the value compares with zero.
    pub fn classify(&self) -> (s: Sign)
        ensures
            s == self.sign(),
    {
        let m: u64 = self.magnitude_bits();
        if m > INFINITY {
            Sign::Unordered
        } else if m == 0 {
            Sign::Zero
        } else if self.bits >= SIGN_BIT {
            Sign::Negative
        } else {
            Sign::Positive
        }
    }

    /// The value without its sign.
    pub fn abs(&self) -> (c: Coefficient)
        ensures
            c == self.absolute(),
    {
        Coefficient { bits: self.magnitude_bits() }
    }

    /// The value with the opposite sign.
    pub fn negate(&self) -> (c: Coefficient)
        ensures
            c == self.negated(),
    {
        if self.bits >= SIGN_BIT {
            Coefficient { bits: self.bits - SIGN_BIT }
        } else {
            Coefficient { bits: self.bits + SIGN_BIT }
        }
    }
}

/// Negation keeps the magnitude and flips the sign: it is its own inverse,
/// keeps zeros zero, and exchanges negative with positive.
pub proof fn lemma_negation(c: Coefficient)
    ensures
        c.negated().negated() == c,
        c.negated().magnitude() == c.magnitude(),
        c.negated().is_zero() == c.is_zero(),
        c.negated().is_finite() == c.is_finite(),
        c.negated().signed() == !c.signed(),
        c.sign() == Sign::Negative <==> c.negated().sign() == Sign::Positive,
        c.is_one() <==> c.negated().is_minus_one(),
{
}

/// A binary operation on coefficients that accepts every pair and yields
/// one result for each.
pub open spec fn is_operation<F: Fn(Coefficient, Coefficient) -> Coefficient>(f: F) -> bool {
    &&& forall|a: Coefficient, b: Coefficient| #[trigger] f.requires((a, b))
    &&& forall|a: Coefficient, b: Coefficient, r1: Coefficient, r2: Coefficient|
        #[trigger] f.ensures((a, b), r1) && #[trigger] f.ensures((a, b), r2) ==> r1 == r2
}

/// What the operation yields on `a` and `b`.
pub open spec fn applied<F: Fn(Coefficient, Coefficient) -> Coefficient>(
    f: F,
    a: Coefficient,
    b: Coefficient,
) -> Coefficient {
    choose|r: Coefficient| f.ensures((a, b), r)
}

/// A reading of number texts that accepts every text and yields one
/// result for each.
pub open spec fn is_reader<N: Fn(String) -> Option<Coefficient>>(n: N) -> bool {
    &&& forall|s: String| #[trigger] n.requires((s,))
    &&& forall|s1: String, s2: String, r1: Option<Coefficient>, r2: Option<Coefficient>|
        s1@ == s2@ && #[trigger] n.ensures((s1,), r1) && #[trigger] n.ensures((s2,), r2) ==> r1
            == r2
}

/// The operation has a result on `a` and `b`.
pub open spec fn yields<F: Fn(Coefficient, Coefficient) -> Coefficient>(
    f: F,
    a: Coefficient,
    b: Coefficient,
) -> bool {
    f.ensures((a, b), applied(f, a, b))
}

/// The reading may yield `r` on a string with these characters.
pub open spec fn reads<N: Fn(String) -> Option<Coefficient>>(
    n: N,
    text: Seq<char>,
    r: Option<Coefficient>,
) -> bool {
    exists|s: String| s@ == text && #[trigger] n.ensures((s,), r)
}

/// What the reading yields on a text.
pub open spec fn read_by<N: Fn(String) -> Option<Coefficient>>(
    n: N,
    text: Seq<char>,
) -> Option<Coefficient> {
    choose|r: Option<Coefficient>| reads(n, text, r)
}

/// The reading has a result on the text.
pub open spec fn reads_text<N: Fn(String) -> Option<Coefficient>>(n: N, text: Seq<char>) -> bool {
    reads(n, text, read_by(n, text))
}

/// A display of coefficients that accepts every coefficient and yields one
/// text for each.
pub open spec fn is_display<D: Fn(Coefficient) -> String>(d: D) -> bool {
    &&& forall|c: Coefficient| #[trigger] d.requires((c,))
    &&& forall|c: Coefficient, s1: String, s2: String|
        #[trigger] d.ensures((c,), s1) && #[trigger] d.ensures((c,), s2) ==> s1@ == s2@
}

/// The display may yield a string with these characters for `c`.
pub open spec fn shows<D: Fn(Coefficient) -> String>(d: D, c: Coefficient, t: Seq<char>) -> bool {
    exists|s: String| s@ == t && #[trigger] d.ensures((c,), s)
}

/// The text that the display yields for a coefficient.
pub open spec fn shown_by<D: Fn(Coefficient) -> String>(d: D, c: Coefficient) -> Seq<char> {
    choose|t: Seq<char>| shows(d, c, t)
}

/// The display has a text for the coefficient.
pub open spec fn shows_text<D: Fn(Coefficient) -> String>(d: D, c: Coefficient) -> bool {
    shows(d, c, shown_by(d, c))
}

/// A result that the reading gave is the result it yields.
pub proof fn lemma_read<N: Fn(String) -> Option<Coefficient>>(
    n: N,
    s: String,
    r: Option<Coefficient>,
)
    requires
        is_reader(n),
        n.ensures((s,), r),
    ensures
        read_by(n, s@) == r,
        reads_text(n, s@),
{
    assert(reads(n, s@, r));
    let chosen = read_by(n, s@);
    assert(reads(n, s@, chosen));
    let witness = choose|w: String| w@ == s@ && #[trigger] n.ensures((w,), chosen);
    assert(n.ensures((witness,), chosen));
}

/// A text that the display gave is the text it yields.
pub proof fn lemma_shown<D: Fn(Coefficient) -> String>(d: D, c: Coefficient, s: String)
    requires
        is_display(d),
        d.ensures((c,), s),
    ensures
        shown_by(d, c) == s@,
        shows_text(d, c),
{
    assert(shows(d, c, s@));
    let chosen = shown_by(d, c);
    assert(shows(d, c, chosen));
    let witness = choose|w: String| w@ == chosen && #[trigger] d.ensures((c,), w);
    assert(d.ensures((c,), witness));
}

} // verus!
