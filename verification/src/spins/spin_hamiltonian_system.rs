//! The interface of Hamiltonians of spins with a declared number of spins.

use crate::coefficient::coeff_of_real;
use crate::error::StruqtureError;
use crate::legacy::{document_hamiltonian_items, hamiltonian_items_view, read_hamiltonian_items};
use crate::operator::{
    accumulate, all_products, changed, with_term, CoefficientChange, TermMap,
};
use crate::site_product::product_of_text;
use crate::spins::pauli_product::{PauliItems, SingleSpinOperator};
use crate::spins::pauli_product::PauliProduct;
use crate::spins::SpinHamiltonianSystem;
use crate::spins::SpinSystem;
use qoqo_calculator::CalculatorComplex;
use qoqo_calculator::CalculatorFloat;
use vstd::prelude::*;

verus! {

/// A Hamiltonian of spins: Pauli products with real coefficients, and the
/// number of spins that it may act on.
#[derive(Clone, Debug, PartialEq)]
pub struct SpinHamiltonianSystemWrapper {
    /// The Hamiltonian that this interface gives access to.
    pub internal: SpinHamiltonianSystem,
}

/// A spin operator with a declared number of spins.
#[derive(Clone, Debug, PartialEq)]
pub struct SpinSystemWrapper {
    /// The system that this interface gives access to.
    pub internal: SpinSystem,
}

/// What a Hamiltonian can be asked to be multiplied with.
#[derive(Debug)]
pub enum Multiplier {
    /// A real number.
    Float(CalculatorFloat),
    /// A complex number.
    Complex(CalculatorComplex),
    /// Another Hamiltonian of spins.
    System(SpinHamiltonianSystemWrapper),
    /// Anything else.
    Unsupported,
}

/// The Hamiltonian that a row of terms of the other schema generation
/// describes: the text of the product of each term is read, and the
/// coefficient is set for it. There is none where a text names no product.
pub open spec fn imported_hamiltonian(items: Seq<(Seq<char>, CalculatorFloat)>) -> Option<
    TermMap<PauliItems>,
>
    decreases items.len(),
{
    if items.len() == 0 {
        Some(Map::empty())
    } else {
        match imported_hamiltonian(items.drop_last()) {
            None => None,
            Some(m) => {
                let key = product_of_text::<SingleSpinOperator>(items.last().0);
                if key.is_some() {
                    Some(with_term(m, key.unwrap(), coeff_of_real(items.last().1)))
                } else {
                    None
                }
            },
        }
    }
}

/// Where a beginning of a row of terms describes no Hamiltonian, the row
/// describes none.
pub proof fn lemma_imported_hamiltonian_fails(items: Seq<(Seq<char>, CalculatorFloat)>, k: int)
    requires
        0 <= k <= items.len(),
        imported_hamiltonian(items.take(k)).is_none(),
    ensures
        imported_hamiltonian(items).is_none(),
    decreases items.len() - k,
{
    if k < items.len() {
        assert(items.take(k + 1).drop_last() =~= items.take(k));
        lemma_imported_hamiltonian_fails(items, k + 1);
    } else {
        assert(items.take(k) =~= items);
    }
}

impl SpinHamiltonianSystemWrapper {
    /// The Hamiltonian that a row of terms of the other schema generation
    /// describes. Each term has the text of its product and its real
    /// coefficient; a later term for a product replaces an earlier one. The
    /// Hamiltonian declares no number of spins.
    ///
    /// Fails with `LegacyImportError` where a text names no product.
    pub fn from_struqture_2_items(items: &Vec<(String, CalculatorFloat)>) -> (r: Result<
        SpinHamiltonianSystemWrapper,
        StruqtureError,
    >)
        ensures
            match imported_hamiltonian(hamiltonian_items_view(items@)) {
                Some(m) => r.is_ok() && r.unwrap().internal@ == m && r.unwrap().internal.capacity().is_none(),
                None => r == Err::<SpinHamiltonianSystemWrapper, StruqtureError>(
                    StruqtureError::LegacyImportError,
                ),
            },
    {
        let mut new_operator = SpinHamiltonianSystem::new(None);
        let ghost all = hamiltonian_items_view(items@);
        let mut i: usize = 0;
        assert(all.take(0) =~= Seq::empty());
        while i < items.len()
            invariant
                i <= items.len(),
                all == hamiltonian_items_view(items@),
                new_operator.capacity().is_none(),
                imported_hamiltonian(all.take(i as int)) == Some(new_operator@),
            decreases items.len() - i,
        {
            proof {
                assert(all.take(i + 1).drop_last() =~= all.take(i as int));
                assert(all.take(i + 1).last() == all[i as int]);
            }
            let self_key = match PauliProduct::from_str(items[i].0.as_str()) {
                Ok(key) => key,
                Err(_) => {
                    proof {
                        lemma_imported_hamiltonian_fails(all, i + 1);
                    }
                    return Err(StruqtureError::LegacyImportError);
                },
            };
            let value = crate::coefficient::coeff_from_real(&items[i].1);
            let _ = new_operator.set(self_key, value);
            i += 1;
        }
        assert(all.take(i as int) =~= all);
        Ok(SpinHamiltonianSystemWrapper { internal: new_operator })
    }

    /// The Hamiltonian that a document of the other schema generation
    /// describes.
    ///
    /// Fails with `LegacyImportError` where the input is no such document or
    /// the text of a product in it names no product.
    pub fn from_json_struqture_2(input: String) -> (r: Result<
        SpinHamiltonianSystemWrapper,
        StruqtureError,
    >)
        ensures
            match document_hamiltonian_items(input@) {
                None => r == Err::<SpinHamiltonianSystemWrapper, StruqtureError>(
                    StruqtureError::LegacyImportError,
                ),
                Some(items) => match imported_hamiltonian(items) {
                    Some(m) => r.is_ok() && r.unwrap().internal@ == m,
                    None => r == Err::<SpinHamiltonianSystemWrapper, StruqtureError>(
                        StruqtureError::LegacyImportError,
                    ),
                },
            },
    {
        match read_hamiltonian_items(input.as_str()) {
            None => Err(StruqtureError::LegacyImportError),
            Some(items) => SpinHamiltonianSystemWrapper::from_struqture_2_items(&items),
        }
    }

    /// A Hamiltonian without terms for the given number of spins.
    pub fn new(number_spins: Option<usize>) -> (r: Self)
        ensures
            r.internal@ =~= Map::empty(),
            r.internal.capacity() == number_spins,
    {
        Self { internal: SpinHamiltonianSystem::new(number_spins) }
    }

    /// The Hamiltonian times a real number, a complex number or another
    /// Hamiltonian. The result is a general spin system, since neither a
    /// complex multiple nor a product of Hamiltonians need be a Hamiltonian.
    ///
    /// Fails with `UnsupportedOperand` where the multiplier is none of these.
    pub fn __mul__(&self, value: Multiplier) -> (r: Result<SpinSystemWrapper, StruqtureError>)
        ensures
            match value {
                Multiplier::Float(x) => r.is_ok() && r.unwrap().internal.capacity()
                    == self.internal.capacity() && r.unwrap().internal@ == changed(
                    self.internal@,
                    CoefficientChange::Scale(coeff_of_real(x)),
                ),
                Multiplier::Complex(x) => r.is_ok() && r.unwrap().internal.capacity()
                    == self.internal.capacity() && r.unwrap().internal@ == changed(
                    self.internal@,
                    CoefficientChange::Scale(x),
                ),
                Multiplier::System(x) => r.is_ok() && r.unwrap().internal@ == accumulate(
                    Map::empty(),
                    all_products::<PauliProduct>(self.internal.terms(), x.internal.terms()),
                ) && r.unwrap().internal.capacity() == Some(
                    if self.internal.number_modes_spec() > x.internal.number_modes_spec() {
                        self.internal.number_modes_spec() as usize
                    } else {
                        x.internal.number_modes_spec() as usize
                    },
                ),
                Multiplier::Unsupported => r == Err::<SpinSystemWrapper, StruqtureError>(
                    StruqtureError::UnsupportedOperand,
                ),
            },
    {
        match value {
            Multiplier::Float(x) => Ok(
                SpinSystemWrapper {
                    internal: self.internal.scale(crate::coefficient::coeff_from_real(&x)),
                },
            ),
            Multiplier::Complex(x) => Ok(SpinSystemWrapper { internal: self.internal.scale(x) }),
            Multiplier::System(x) => {
                let new_self = self.internal.mul(&x.internal);
                Ok(SpinSystemWrapper { internal: new_self })
            },
            Multiplier::Unsupported => Err(StruqtureError::UnsupportedOperand),
        }
    }
}

} // verus!
