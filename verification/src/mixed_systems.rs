//! Products of operators on systems that are composed of spins, bosons and
//! fermions, and the operators built from them.

pub mod mixed_product;

pub use mixed_product::MixedProduct;

use crate::operator::Operator;
use crate::system::System;
use vstd::prelude::*;

verus! {

/// A sum of mixed products with complex coefficients.
pub type MixedOperator = Operator<MixedProduct>;

/// A mixed operator with a declared number of sites and modes: no
/// subsystem reaches beyond it.
pub type MixedSystem = System<MixedProduct>;

} // verus!
