//! Products of spin operators and the operators built from them.

pub mod basis;
pub mod decoherence_product;
pub mod pauli_product;
pub mod plus_minus_noise_operator;
pub mod plus_minus_product;
pub mod spin_hamiltonian_system;

pub use decoherence_product::DecoherenceProduct;
pub use decoherence_product::SingleDecoherenceOperator;
pub use pauli_product::PauliProduct;
pub use plus_minus_noise_operator::PlusMinusLindbladNoiseOperatorWrapper;
pub use plus_minus_noise_operator::SpinLindbladNoiseSystemWrapper;
pub use plus_minus_product::PlusMinusProduct;
pub use plus_minus_product::SinglePlusMinusOperator;
pub use spin_hamiltonian_system::Multiplier;
pub use spin_hamiltonian_system::SpinHamiltonianSystemWrapper;
pub use spin_hamiltonian_system::SpinSystemWrapper;
pub use pauli_product::SingleSpinOperator;

use crate::open_system::OpenSystem;
use crate::operator::Operator;
use crate::operator::SelfAdjoint;
use crate::system::System;
use vstd::prelude::*;

verus! {

/// A sum of Pauli products with complex coefficients.
pub type SpinOperator = Operator<PauliProduct>;

/// A spin operator with a declared number of spins.
pub type SpinSystem = System<PauliProduct>;

/// A sum of Pauli products with real coefficients: a Hamiltonian of spins.
pub type SpinHamiltonian = Operator<PauliProduct, SelfAdjoint>;

/// A Hamiltonian of spins with a declared number of spins.
pub type SpinHamiltonianSystem = System<PauliProduct, SelfAdjoint>;

/// A sum of products of raising and lowering operators and Pauli Z.
pub type PlusMinusOperator = Operator<PlusMinusProduct>;

/// The Lindblad noise terms of spins, each labelled by a pair of products
/// of raising and lowering operators and Pauli Z.
pub type PlusMinusLindbladNoiseOperator = Operator<(PlusMinusProduct, PlusMinusProduct)>;

/// The Lindblad noise terms of spins, each labelled by a pair of products
/// of X, iY and Z.
pub type SpinLindbladNoiseOperator = Operator<(DecoherenceProduct, DecoherenceProduct)>;

/// Lindblad noise terms of spins with a declared number of spins.
pub type SpinLindbladNoiseSystem = System<(DecoherenceProduct, DecoherenceProduct)>;

/// A Hamiltonian of spins together with Lindblad noise of spins.
pub type SpinLindbladOpenSystem = OpenSystem<PauliProduct, DecoherenceProduct>;

} // verus!
