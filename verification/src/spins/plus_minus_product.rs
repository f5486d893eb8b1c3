//! Products of raising and lowering operators and Pauli Z.

use crate::sign::Sign;
use crate::site_product::{with_symbol, LetterSymbol, SiteProduct, SiteSymbol};
use vstd::prelude::*;

verus! {

/// The raising operator, the lowering operator or Pauli Z on one site, or
/// the identity.
#[derive(Clone, Copy, Debug, PartialEq, Eq, Structural, Hash, PartialOrd, Ord)]
pub enum SinglePlusMinusOperator {
    Identity,
    Plus,
    Minus,
    Z,
}

impl SiteSymbol for SinglePlusMinusOperator {
    open spec fn identity() -> Self {
        SinglePlusMinusOperator::Identity
    }

    open spec fn adjoint(self) -> Self {
        match self {
            SinglePlusMinusOperator::Plus => SinglePlusMinusOperator::Minus,
            SinglePlusMinusOperator::Minus => SinglePlusMinusOperator::Plus,
            s => s,
        }
    }

    open spec fn adjoint_sign(self) -> Sign {
        Sign::Plus
    }

    proof fn lemma_adjoint(s: Self) {
    }

    open spec fn code(self) -> usize {
        match self {
            SinglePlusMinusOperator::Identity => 0,
            SinglePlusMinusOperator::Plus => 1,
            SinglePlusMinusOperator::Minus => 2,
            SinglePlusMinusOperator::Z => 3,
        }
    }

    open spec fn of_code(code: usize) -> Option<Self> {
        if code == 0 {
            Some(SinglePlusMinusOperator::Identity)
        } else if code == 1 {
            Some(SinglePlusMinusOperator::Plus)
        } else if code == 2 {
            Some(SinglePlusMinusOperator::Minus)
        } else if code == 3 {
            Some(SinglePlusMinusOperator::Z)
        } else {
            None
        }
    }

    proof fn lemma_code(s: Self) {
    }

    fn symbol_code(&self) -> (c: usize) {
        match self {
            SinglePlusMinusOperator::Identity => 0,
            SinglePlusMinusOperator::Plus => 1,
            SinglePlusMinusOperator::Minus => 2,
            SinglePlusMinusOperator::Z => 3,
        }
    }

    fn symbol_from_code(code: usize) -> (r: Option<Self>) {
        if code == 0 {
            Some(SinglePlusMinusOperator::Identity)
        } else if code == 1 {
            Some(SinglePlusMinusOperator::Plus)
        } else if code == 2 {
            Some(SinglePlusMinusOperator::Minus)
        } else if code == 3 {
            Some(SinglePlusMinusOperator::Z)
        } else {
            None
        }
    }

    fn unit() -> (r: Self) {
        SinglePlusMinusOperator::Identity
    }

    fn symbol_is_identity(&self) -> (b: bool) {
        match self {
            SinglePlusMinusOperator::Identity => true,
            _ => false,
        }
    }

    fn same_symbol(&self, other: &Self) -> (b: bool) {
        *self == *other
    }

    fn symbol_adjoint(&self) -> (r: (Self, Sign)) {
        match self {
            SinglePlusMinusOperator::Plus => (SinglePlusMinusOperator::Minus, Sign::Plus),
            SinglePlusMinusOperator::Minus => (SinglePlusMinusOperator::Plus, Sign::Plus),
            s => (*s, Sign::Plus),
        }
    }
}

impl LetterSymbol for SinglePlusMinusOperator {
    open spec fn family() -> Seq<char> {
        "PlusMinus"@
    }

    fn symbol_family() -> (r: String) {
        "PlusMinus".to_owned()
    }

    open spec fn letter(self) -> char {
        match self {
            SinglePlusMinusOperator::Identity => 'I',
            SinglePlusMinusOperator::Plus => '+',
            SinglePlusMinusOperator::Minus => '-',
            SinglePlusMinusOperator::Z => 'Z',
        }
    }

    open spec fn of_letter(c: char) -> Option<SinglePlusMinusOperator> {
        if c == 'I' {
            Some(SinglePlusMinusOperator::Identity)
        } else if c == '+' {
            Some(SinglePlusMinusOperator::Plus)
        } else if c == '-' {
            Some(SinglePlusMinusOperator::Minus)
        } else if c == 'Z' {
            Some(SinglePlusMinusOperator::Z)
        } else {
            None
        }
    }

    proof fn lemma_letter(s: Self) {
    }

    fn to_char(&self) -> (c: char) {
        match self {
            SinglePlusMinusOperator::Identity => 'I',
            SinglePlusMinusOperator::Plus => '+',
            SinglePlusMinusOperator::Minus => '-',
            SinglePlusMinusOperator::Z => 'Z',
        }
    }

    fn from_char(c: char) -> (r: Option<SinglePlusMinusOperator>) {
        if c == 'I' {
            Some(SinglePlusMinusOperator::Identity)
        } else if c == '+' {
            Some(SinglePlusMinusOperator::Plus)
        } else if c == '-' {
            Some(SinglePlusMinusOperator::Minus)
        } else if c == 'Z' {
            Some(SinglePlusMinusOperator::Z)
        } else {
            None
        }
    }
}

/// A product of raising operators, lowering operators and Pauli Z on
/// distinct sites, in ascending order of the sites.
pub type PlusMinusProduct = SiteProduct<SinglePlusMinusOperator>;

impl SiteProduct<SinglePlusMinusOperator> {
    /// The product with the raising operator on a site.
    pub fn plus(self, index: usize) -> (r: Self)
        ensures
            index < usize::MAX ==> r@ == with_symbol(self@, index, SinglePlusMinusOperator::Plus),
            index == usize::MAX ==> r@ == self@,
    {
        self.set_pauli(index, SinglePlusMinusOperator::Plus)
    }

    /// The product with the lowering operator on a site.
    pub fn minus(self, index: usize) -> (r: Self)
        ensures
            index < usize::MAX ==> r@ == with_symbol(self@, index, SinglePlusMinusOperator::Minus),
            index == usize::MAX ==> r@ == self@,
    {
        self.set_pauli(index, SinglePlusMinusOperator::Minus)
    }

    /// The product with the operator Z on a site.
    pub fn z(self, index: usize) -> (r: Self)
        ensures
            index < usize::MAX ==> r@ == with_symbol(self@, index, SinglePlusMinusOperator::Z),
            index == usize::MAX ==> r@ == self@,
    {
        self.set_pauli(index, SinglePlusMinusOperator::Z)
    }
}

} // verus!
