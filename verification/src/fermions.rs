//! Fermionic products and the operators built from them.

pub mod fermion_product;
pub mod hermitian_fermion_product;

pub use fermion_product::FermionProduct;
pub use hermitian_fermion_product::HermitianFermionProduct;

use crate::open_system::OpenSystem;
use crate::operator::Operator;
use crate::operator::SelfAdjoint;
use crate::system::System;
use vstd::prelude::*;

verus! {

/// A sum of fermionic products with complex coefficients.
pub type FermionOperator = Operator<FermionProduct>;

/// A fermionic operator with a declared number of modes.
pub type FermionSystem = System<FermionProduct>;

/// A fermionic Hamiltonian: each term stands for a product and its adjoint.
pub type FermionHamiltonian = Operator<HermitianFermionProduct, SelfAdjoint>;

/// A fermionic Hamiltonian with a declared number of modes.
pub type FermionHamiltonianSystem = System<HermitianFermionProduct, SelfAdjoint>;

/// Fermionic Lindblad noise terms, each labelled by a pair of products.
pub type FermionLindbladNoiseOperator = Operator<(FermionProduct, FermionProduct)>;

/// Fermionic Lindblad noise terms with a declared number of modes.
pub type FermionLindbladNoiseSystem = System<(FermionProduct, FermionProduct)>;

/// A fermionic Hamiltonian together with fermionic Lindblad noise.
pub type FermionLindbladOpenSystem = OpenSystem<HermitianFermionProduct, FermionProduct>;

} // verus!
