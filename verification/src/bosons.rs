//! Bosonic products and the operators built from them.

pub mod boson_product;
pub mod hermitian_boson_product;

pub use boson_product::BosonProduct;
pub use hermitian_boson_product::HermitianBosonProduct;

use crate::open_system::OpenSystem;
use crate::operator::Operator;
use crate::operator::SelfAdjoint;
use crate::system::System;
use vstd::prelude::*;

verus! {

/// A sum of bosonic products with complex coefficients.
pub type BosonOperator = Operator<BosonProduct>;

/// A bosonic operator with a declared number of modes.
pub type BosonSystem = System<BosonProduct>;

/// A bosonic Hamiltonian: each term stands for a product and its adjoint.
pub type BosonHamiltonian = Operator<HermitianBosonProduct, SelfAdjoint>;

/// A bosonic Hamiltonian with a declared number of modes.
pub type BosonHamiltonianSystem = System<HermitianBosonProduct, SelfAdjoint>;

/// Bosonic Lindblad noise terms, each labelled by a pair of products.
pub type BosonLindbladNoiseOperator = Operator<(BosonProduct, BosonProduct)>;

/// Bosonic Lindblad noise terms with a declared number of modes.
pub type BosonLindbladNoiseSystem = System<(BosonProduct, BosonProduct)>;

/// A bosonic Hamiltonian together with bosonic Lindblad noise.
pub type BosonLindbladOpenSystem = OpenSystem<HermitianBosonProduct, BosonProduct>;

} // verus!
