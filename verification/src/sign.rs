//! Signs and phases that canonicalisation and multiplication produce.

use vstd::prelude::*;

verus! {

/// The factor by which a canonical product differs from the raw product it
/// was made from: `+1`, `-1`, or `0` where the raw product vanishes.
#[derive(Clone, Copy, Debug, PartialEq, Eq, Structural)]
pub enum Sign {
    Plus,
    Minus,
    Zero,
}

impl Sign {
    /// The sign as an integer.
    pub open spec fn value(self) -> int {
        match self {
            Sign::Plus => 1,
            Sign::Minus => -1,
            Sign::Zero => 0,
        }
    }

    /// The product of two signs.
    pub open spec fn product(self, other: Sign) -> Sign {
        match (self, other) {
            (Sign::Zero, _) => Sign::Zero,
            (_, Sign::Zero) => Sign::Zero,
            (Sign::Plus, s) => s,
            (Sign::Minus, Sign::Plus) => Sign::Minus,
            (Sign::Minus, Sign::Minus) => Sign::Plus,
        }
    }

    /// The sign of an integer.
    pub open spec fn of_int(v: int) -> Sign {
        if v > 0 {
            Sign::Plus
        } else if v < 0 {
            Sign::Minus
        } else {
            Sign::Zero
        }
    }

    /// The product of two signs.
    pub fn times(self, other: Sign) -> (r: Sign)
        ensures
            r == self.product(other),
            r.value() == self.value() * other.value(),
    {
        match (self, other) {
            (Sign::Zero, _) => Sign::Zero,
            (_, Sign::Zero) => Sign::Zero,
            (Sign::Plus, s) => s,
            (Sign::Minus, Sign::Plus) => Sign::Minus,
            (Sign::Minus, Sign::Minus) => Sign::Plus,
        }
    }

    /// The opposite sign.
    pub open spec fn negation(self) -> Sign {
        match self {
            Sign::Plus => Sign::Minus,
            Sign::Minus => Sign::Plus,
            Sign::Zero => Sign::Zero,
        }
    }

    /// The opposite sign.
    pub fn negated(self) -> (r: Sign)
        ensures
            r == self.negation(),
            r.value() == -self.value(),
    {
        match self {
            Sign::Plus => Sign::Minus,
            Sign::Minus => Sign::Plus,
            Sign::Zero => Sign::Zero,
        }
    }

    /// `+1` for an even count of exchanges, `-1` for an odd one.
    pub fn of_parity(odd: bool) -> (r: Sign)
        ensures
            r.value() == if odd { -1int } else { 1int },
    {
        if odd {
            Sign::Minus
        } else {
            Sign::Plus
        }
    }

    /// The integer `+1`, `-1` or `0` that the sign stands for.
    pub fn to_int(self) -> (r: i32)
        ensures
            r == self.value(),
    {
        match self {
            Sign::Plus => 1,
            Sign::Minus => -1,
            Sign::Zero => 0,
        }
    }
}

/// A fourth root of unity: the factor that a product of Pauli symbols picks up.
#[derive(Clone, Copy, Debug, PartialEq, Eq, Structural)]
pub enum Phase {
    /// `1`
    One,
    /// `i`
    I,
    /// `-1`
    MinusOne,
    /// `-i`
    MinusI,
}

impl Phase {
    /// The exponent `k` in `i^k`, between 0 and 3.
    pub open spec fn exponent(self) -> int {
        match self {
            Phase::One => 0,
            Phase::I => 1,
            Phase::MinusOne => 2,
            Phase::MinusI => 3,
        }
    }

    /// The phase `i^k` for an exponent taken modulo 4.
    pub open spec fn of_exponent(k: int) -> Phase {
        let m = k % 4;
        if m == 0 {
            Phase::One
        } else if m == 1 {
            Phase::I
        } else if m == 2 {
            Phase::MinusOne
        } else {
            Phase::MinusI
        }
    }

    /// The real part of the phase.
    pub open spec fn re(self) -> int {
        match self {
            Phase::One => 1,
            Phase::MinusOne => -1,
            _ => 0,
        }
    }

    /// The imaginary part of the phase.
    pub open spec fn im(self) -> int {
        match self {
            Phase::I => 1,
            Phase::MinusI => -1,
            _ => 0,
        }
    }

    /// The product of two phases: exponents add modulo 4.
    pub fn times(self, other: Phase) -> (r: Phase)
        ensures
            r == Phase::of_exponent(self.exponent() + other.exponent()),
    {
        match (self, other) {
            (Phase::One, p) => p,
            (p, Phase::One) => p,
            (Phase::I, Phase::I) => Phase::MinusOne,
            (Phase::I, Phase::MinusOne) => Phase::MinusI,
            (Phase::I, Phase::MinusI) => Phase::One,
            (Phase::MinusOne, Phase::I) => Phase::MinusI,
            (Phase::MinusOne, Phase::MinusOne) => Phase::One,
            (Phase::MinusOne, Phase::MinusI) => Phase::I,
            (Phase::MinusI, Phase::I) => Phase::One,
            (Phase::MinusI, Phase::MinusOne) => Phase::I,
            (Phase::MinusI, Phase::MinusI) => Phase::MinusOne,
        }
    }

    /// The complex conjugate of the phase.
    pub fn conjugate(self) -> (r: Phase)
        ensures
            r == Phase::of_exponent(-self.exponent()),
            r.re() == self.re(),
            r.im() == -self.im(),
    {
        match self {
            Phase::One => Phase::One,
            Phase::I => Phase::MinusI,
            Phase::MinusOne => Phase::MinusOne,
            Phase::MinusI => Phase::I,
        }
    }

    /// The real part as a machine integer.
    pub fn real_part(self) -> (r: i32)
        ensures
            r == self.re(),
    {
        match self {
            Phase::One => 1,
            Phase::MinusOne => -1,
            _ => 0,
        }
    }

    /// The imaginary part as a machine integer.
    pub fn imaginary_part(self) -> (r: i32)
        ensures
            r == self.im(),
    {
        match self {
            Phase::I => 1,
            Phase::MinusI => -1,
            _ => 0,
        }
    }
}

} // verus!
