//! How the operator bases of a spin are related.
//!
//! With `+` for the raising and `-` for the lowering operator:
//! `+ = (X + iY) / 2`, `- = (X - iY) / 2`, and back `X = + + -`,
//! `iY = + - -`, `Y = -i (+) + i (-)`.

use crate::basis_change::{Prefactor, SplitsInto};
use crate::sign::Phase;
use crate::spins::decoherence_product::SingleDecoherenceOperator;
use crate::spins::pauli_product::SingleSpinOperator;
use crate::spins::plus_minus_product::SinglePlusMinusOperator;
use vstd::prelude::*;

verus! {

impl SplitsInto<SingleDecoherenceOperator> for SinglePlusMinusOperator {
    open spec fn split(self) -> Seq<(SingleDecoherenceOperator, Prefactor)> {
        match self {
            SinglePlusMinusOperator::Identity => seq![
                (SingleDecoherenceOperator::Identity, Prefactor { phase: Phase::One, halvings: 0 }),
            ],
            SinglePlusMinusOperator::Plus => seq![
                (SingleDecoherenceOperator::X, Prefactor { phase: Phase::One, halvings: 1 }),
                (SingleDecoherenceOperator::IY, Prefactor { phase: Phase::One, halvings: 1 }),
            ],
            SinglePlusMinusOperator::Minus => seq![
                (SingleDecoherenceOperator::X, Prefactor { phase: Phase::One, halvings: 1 }),
                (SingleDecoherenceOperator::IY, Prefactor { phase: Phase::MinusOne, halvings: 1 }),
            ],
            SinglePlusMinusOperator::Z => seq![
                (SingleDecoherenceOperator::Z, Prefactor { phase: Phase::One, halvings: 0 }),
            ],
        }
    }

    proof fn lemma_split(s: Self) {
    }

    fn symbol_split(&self) -> (r: Vec<(SingleDecoherenceOperator, Prefactor)>) {
        let mut r: Vec<(SingleDecoherenceOperator, Prefactor)> = Vec::new();
        match self {
            SinglePlusMinusOperator::Identity => {
                r.push(
                    (SingleDecoherenceOperator::Identity, Prefactor { phase: Phase::One, halvings: 0 }),
                );
            },
            SinglePlusMinusOperator::Plus => {
                r.push((SingleDecoherenceOperator::X, Prefactor { phase: Phase::One, halvings: 1 }));
                r.push((SingleDecoherenceOperator::IY, Prefactor { phase: Phase::One, halvings: 1 }));
            },
            SinglePlusMinusOperator::Minus => {
                r.push((SingleDecoherenceOperator::X, Prefactor { phase: Phase::One, halvings: 1 }));
                r.push(
                    (SingleDecoherenceOperator::IY, Prefactor { phase: Phase::MinusOne, halvings: 1 }),
                );
            },
            SinglePlusMinusOperator::Z => {
                r.push((SingleDecoherenceOperator::Z, Prefactor { phase: Phase::One, halvings: 0 }));
            },
        }
        assert(r@ =~= self.split());
        r
    }
}

impl SplitsInto<SinglePlusMinusOperator> for SingleDecoherenceOperator {
    open spec fn split(self) -> Seq<(SinglePlusMinusOperator, Prefactor)> {
        match self {
            SingleDecoherenceOperator::Identity => seq![
                (SinglePlusMinusOperator::Identity, Prefactor { phase: Phase::One, halvings: 0 }),
            ],
            SingleDecoherenceOperator::X => seq![
                (SinglePlusMinusOperator::Plus, Prefactor { phase: Phase::One, halvings: 0 }),
                (SinglePlusMinusOperator::Minus, Prefactor { phase: Phase::One, halvings: 0 }),
            ],
            SingleDecoherenceOperator::IY => seq![
                (SinglePlusMinusOperator::Plus, Prefactor { phase: Phase::One, halvings: 0 }),
                (SinglePlusMinusOperator::Minus, Prefactor { phase: Phase::MinusOne, halvings: 0 }),
            ],
            SingleDecoherenceOperator::Z => seq![
                (SinglePlusMinusOperator::Z, Prefactor { phase: Phase::One, halvings: 0 }),
            ],
        }
    }

    proof fn lemma_split(s: Self) {
    }

    fn symbol_split(&self) -> (r: Vec<(SinglePlusMinusOperator, Prefactor)>) {
        let mut r: Vec<(SinglePlusMinusOperator, Prefactor)> = Vec::new();
        match self {
            SingleDecoherenceOperator::Identity => {
                r.push(
                    (SinglePlusMinusOperator::Identity, Prefactor { phase: Phase::One, halvings: 0 }),
                );
            },
            SingleDecoherenceOperator::X => {
                r.push((SinglePlusMinusOperator::Plus, Prefactor { phase: Phase::One, halvings: 0 }));
                r.push((SinglePlusMinusOperator::Minus, Prefactor { phase: Phase::One, halvings: 0 }));
            },
            SingleDecoherenceOperator::IY => {
                r.push((SinglePlusMinusOperator::Plus, Prefactor { phase: Phase::One, halvings: 0 }));
                r.push(
                    (SinglePlusMinusOperator::Minus, Prefactor { phase: Phase::MinusOne, halvings: 0 }),
                );
            },
            SingleDecoherenceOperator::Z => {
                r.push((SinglePlusMinusOperator::Z, Prefactor { phase: Phase::One, halvings: 0 }));
            },
        }
        assert(r@ =~= self.split());
        r
    }
}

impl SplitsInto<SingleSpinOperator> for SinglePlusMinusOperator {
    open spec fn split(self) -> Seq<(SingleSpinOperator, Prefactor)> {
        match self {
            SinglePlusMinusOperator::Identity => seq![
                (SingleSpinOperator::Identity, Prefactor { phase: Phase::One, halvings: 0 }),
            ],
            SinglePlusMinusOperator::Plus => seq![
                (SingleSpinOperator::X, Prefactor { phase: Phase::One, halvings: 1 }),
                (SingleSpinOperator::Y, Prefactor { phase: Phase::I, halvings: 1 }),
            ],
            SinglePlusMinusOperator::Minus => seq![
                (SingleSpinOperator::X, Prefactor { phase: Phase::One, halvings: 1 }),
                (SingleSpinOperator::Y, Prefactor { phase: Phase::MinusI, halvings: 1 }),
            ],
            SinglePlusMinusOperator::Z => seq![
                (SingleSpinOperator::Z, Prefactor { phase: Phase::One, halvings: 0 }),
            ],
        }
    }

    proof fn lemma_split(s: Self) {
    }

    fn symbol_split(&self) -> (r: Vec<(SingleSpinOperator, Prefactor)>) {
        let mut r: Vec<(SingleSpinOperator, Prefactor)> = Vec::new();
        match self {
            SinglePlusMinusOperator::Identity => {
                r.push((SingleSpinOperator::Identity, Prefactor { phase: Phase::One, halvings: 0 }));
            },
            SinglePlusMinusOperator::Plus => {
                r.push((SingleSpinOperator::X, Prefactor { phase: Phase::One, halvings: 1 }));
                r.push((SingleSpinOperator::Y, Prefactor { phase: Phase::I, halvings: 1 }));
            },
            SinglePlusMinusOperator::Minus => {
                r.push((SingleSpinOperator::X, Prefactor { phase: Phase::One, halvings: 1 }));
                r.push((SingleSpinOperator::Y, Prefactor { phase: Phase::MinusI, halvings: 1 }));
            },
            SinglePlusMinusOperator::Z => {
                r.push((SingleSpinOperator::Z, Prefactor { phase: Phase::One, halvings: 0 }));
            },
        }
        assert(r@ =~= self.split());
        r
    }
}

impl SplitsInto<SinglePlusMinusOperator> for SingleSpinOperator {
    open spec fn split(self) -> Seq<(SinglePlusMinusOperator, Prefactor)> {
        match self {
            SingleSpinOperator::Identity => seq![
                (SinglePlusMinusOperator::Identity, Prefactor { phase: Phase::One, halvings: 0 }),
            ],
            SingleSpinOperator::X => seq![
                (SinglePlusMinusOperator::Plus, Prefactor { phase: Phase::One, halvings: 0 }),
                (SinglePlusMinusOperator::Minus, Prefactor { phase: Phase::One, halvings: 0 }),
            ],
            SingleSpinOperator::Y => seq![
                (SinglePlusMinusOperator::Plus, Prefactor { phase: Phase::MinusI, halvings: 0 }),
                (SinglePlusMinusOperator::Minus, Prefactor { phase: Phase::I, halvings: 0 }),
            ],
            SingleSpinOperator::Z => seq![
                (SinglePlusMinusOperator::Z, Prefactor { phase: Phase::One, halvings: 0 }),
            ],
        }
    }

    proof fn lemma_split(s: Self) {
    }

    fn symbol_split(&self) -> (r: Vec<(SinglePlusMinusOperator, Prefactor)>) {
        let mut r: Vec<(SinglePlusMinusOperator, Prefactor)> = Vec::new();
        match self {
            SingleSpinOperator::Identity => {
                r.push(
                    (SinglePlusMinusOperator::Identity, Prefactor { phase: Phase::One, halvings: 0 }),
                );
            },
            SingleSpinOperator::X => {
                r.push((SinglePlusMinusOperator::Plus, Prefactor { phase: Phase::One, halvings: 0 }));
                r.push((SinglePlusMinusOperator::Minus, Prefactor { phase: Phase::One, halvings: 0 }));
            },
            SingleSpinOperator::Y => {
                r.push(
                    (SinglePlusMinusOperator::Plus, Prefactor { phase: Phase::MinusI, halvings: 0 }),
                );
                r.push((SinglePlusMinusOperator::Minus, Prefactor { phase: Phase::I, halvings: 0 }));
            },
            SingleSpinOperator::Z => {
                r.push((SinglePlusMinusOperator::Z, Prefactor { phase: Phase::One, halvings: 0 }));
            },
        }
        assert(r@ =~= self.split());
        r
    }
}

} // verus!
