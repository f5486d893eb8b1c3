//! The failures that the library reports.

use vstd::prelude::*;

verus! {

/// Everything that can go wrong in this library. No function panics; each
/// failure comes back as one of these values.
#[derive(Clone, Copy, Debug, PartialEq, Eq, Structural)]
pub enum StruqtureError {
    /// A raw index list does not describe a product of the requested type.
    InvalidIndex,
    /// A text does not follow the grammar of the product it should describe.
    ParseMismatch,
    /// A fermionic index occurs twice among the creators or the annihilators
    /// where the caller asked for a product that is canonical already.
    DuplicateFermionIndex,
    /// A term references a site or mode at or beyond the declared capacity.
    CapacityExceeded,
    /// Two systems with different declared capacities were combined.
    CapacityMismatch,
    /// A term would make a Hamiltonian differ from its own adjoint.
    NonHermitianOperator,
    /// Two mixed products with different numbers of subsystems were combined.
    MismatchedSubsystems,
    /// An encoded payload does not describe a value of the requested type.
    DecodeError,
    /// A document of the other schema generation could not be brought in.
    LegacyImportError,
    /// The right-hand side of a multiplication is neither a number nor an
    /// operator of a matching type.
    UnsupportedOperand,
}

} // verus!
