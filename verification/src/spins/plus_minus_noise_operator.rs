//! The interface of Lindblad noise operators of spins in the basis of
//! raising and lowering operators and Pauli Z.

use crate::basis_change::{convert_noise_operator, converted_pairs};
use crate::error::StruqtureError;
use crate::key::OperatorKey;
use crate::legacy::{document_noise_items, noise_items_view, read_noise_items};
use crate::operator::{
    accumulate, changed, map_sum, selected, with_term, CoefficientChange, TermMap,
};
use crate::site_product::product_of_text;
use qoqo_calculator::CalculatorComplex;
use crate::spins::decoherence_product::{DecoherenceProduct, SingleDecoherenceOperator};
use crate::spins::plus_minus_product::{PlusMinusProduct, SinglePlusMinusOperator};
use crate::spins::PlusMinusLindbladNoiseOperator;
use crate::spins::SpinLindbladNoiseSystem;
use crate::system::within_capacity;
use vstd::prelude::*;

verus! {

/// Lindblad noise terms of spins, each labelled by a pair of products of
/// raising and lowering operators and Pauli Z.
#[derive(Clone, Debug, PartialEq, Default)]
pub struct PlusMinusLindbladNoiseOperatorWrapper {
    /// The noise operator that this interface gives access to.
    pub internal: PlusMinusLindbladNoiseOperator,
}

/// Lindblad noise terms of spins with a declared number of spins, each
/// labelled by a pair of products of X, iY and Z.
#[derive(Clone, Debug, PartialEq)]
pub struct SpinLindbladNoiseSystemWrapper {
    /// The noise system that this interface gives access to.
    pub internal: SpinLindbladNoiseSystem,
}

/// The key of a noise term in the basis of raising and lowering operators.
pub type PlusMinusPair = (Seq<(usize, SinglePlusMinusOperator)>, Seq<(usize, SinglePlusMinusOperator)>);

/// The noise operator that a row of terms of the other schema generation
/// describes: the texts of both products of each term are read, and the
/// coefficient is set for the pair. There is none where a text names no
/// product.
pub open spec fn imported_noise(items: Seq<(Seq<char>, Seq<char>, CalculatorComplex)>) -> Option<
    TermMap<PlusMinusPair>,
>
    decreases items.len(),
{
    if items.len() == 0 {
        Some(Map::empty())
    } else {
        match imported_noise(items.drop_last()) {
            None => None,
            Some(m) => {
                let left = product_of_text::<SinglePlusMinusOperator>(items.last().0);
                let right = product_of_text::<SinglePlusMinusOperator>(items.last().1);
                if left.is_some() && right.is_some() {
                    Some(with_term(m, (left.unwrap(), right.unwrap()), items.last().2))
                } else {
                    None
                }
            },
        }
    }
}

/// Where a beginning of a row of terms describes no noise operator, the row
/// describes none.
pub proof fn lemma_imported_noise_fails(
    items: Seq<(Seq<char>, Seq<char>, CalculatorComplex)>,
    k: int,
)
    requires
        0 <= k <= items.len(),
        imported_noise(items.take(k)).is_none(),
    ensures
        imported_noise(items).is_none(),
    decreases items.len() - k,
{
    if k < items.len() {
        assert(items.take(k + 1).drop_last() =~= items.take(k));
        lemma_imported_noise_fails(items, k + 1);
    } else {
        assert(items.take(k) =~= items);
    }
}

impl PlusMinusLindbladNoiseOperatorWrapper {
    /// The noise operator that a row of terms of the other schema
    /// generation describes. Each term has the texts of its two products
    /// and its coefficient; a later term for a pair replaces an earlier one.
    ///
    /// Fails with `LegacyImportError` where a text names no product.
    pub fn from_struqture_2_items(items: &Vec<(String, String, CalculatorComplex)>) -> (r: Result<
        PlusMinusLindbladNoiseOperatorWrapper,
        StruqtureError,
    >)
        ensures
            match imported_noise(noise_items_view(items@)) {
                Some(m) => r.is_ok() && r.unwrap().internal@ == m,
                None => r == Err::<PlusMinusLindbladNoiseOperatorWrapper, StruqtureError>(
                    StruqtureError::LegacyImportError,
                ),
            },
    {
        let mut new_operator = PlusMinusLindbladNoiseOperator::new();
        let ghost all = noise_items_view(items@);
        let mut i: usize = 0;
        assert(all.take(0) =~= Seq::empty());
        while i < items.len()
            invariant
                i <= items.len(),
                all == noise_items_view(items@),
                imported_noise(all.take(i as int)) == Some(new_operator@),
            decreases items.len() - i,
        {
            proof {
                assert(all.take(i + 1).drop_last() =~= all.take(i as int));
                assert(all.take(i + 1).last() == all[i as int]);
            }
            let self_key_left = match PlusMinusProduct::from_str(items[i].0.as_str()) {
                Ok(key) => key,
                Err(_) => {
                    proof {
                        lemma_imported_noise_fails(all, i + 1);
                    }
                    return Err(StruqtureError::LegacyImportError);
                },
            };
            let self_key_right = match PlusMinusProduct::from_str(items[i].1.as_str()) {
                Ok(key) => key,
                Err(_) => {
                    proof {
                        lemma_imported_noise_fails(all, i + 1);
                    }
                    return Err(StruqtureError::LegacyImportError);
                },
            };
            let value = crate::coefficient::coeff_clone(&items[i].2);
            let _ = new_operator.set((self_key_left, self_key_right), value);
            i += 1;
        }
        assert(all.take(i as int) =~= all);
        Ok(PlusMinusLindbladNoiseOperatorWrapper { internal: new_operator })
    }

    /// The noise operator that a document of the other schema generation
    /// describes.
    ///
    /// Fails with `LegacyImportError` where the input is no such document or
    /// the text of a product in it names no product.
    pub fn from_json_struqture_2(input: String) -> (r: Result<
        PlusMinusLindbladNoiseOperatorWrapper,
        StruqtureError,
    >)
        ensures
            match document_noise_items(input@) {
                None => r == Err::<PlusMinusLindbladNoiseOperatorWrapper, StruqtureError>(
                    StruqtureError::LegacyImportError,
                ),
                Some(items) => match imported_noise(items) {
                    Some(m) => r.is_ok() && r.unwrap().internal@ == m,
                    None => r == Err::<PlusMinusLindbladNoiseOperatorWrapper, StruqtureError>(
                        StruqtureError::LegacyImportError,
                    ),
                },
            },
    {
        match read_noise_items(input.as_str()) {
            None => Err(StruqtureError::LegacyImportError),
            Some(items) => PlusMinusLindbladNoiseOperatorWrapper::from_struqture_2_items(&items),
        }
    }

    /// A noise operator without terms.
    pub fn new() -> (r: Self)
        ensures
            r.internal@ =~= Map::empty(),
    {
        Self { internal: PlusMinusLindbladNoiseOperator::new() }
    }

    /// The noise operator times `-1`.
    pub fn __neg__(&self) -> (r: PlusMinusLindbladNoiseOperatorWrapper)
        ensures
            r.internal@ == changed(self.internal@, CoefficientChange::Negate),
    {
        PlusMinusLindbladNoiseOperatorWrapper { internal: self.internal.neg() }
    }

    /// The sum of two noise operators.
    pub fn __add__(&self, other: PlusMinusLindbladNoiseOperatorWrapper) -> (r:
        PlusMinusLindbladNoiseOperatorWrapper)
        ensures
            r.internal@ == map_sum(self.internal@, other.internal@),
    {
        let new_self = self.internal.clone().add(other.internal);
        PlusMinusLindbladNoiseOperatorWrapper { internal: new_self }
    }

    /// The difference of two noise operators.
    pub fn __sub__(&self, other: PlusMinusLindbladNoiseOperatorWrapper) -> (r:
        PlusMinusLindbladNoiseOperatorWrapper)
        ensures
            r.internal@ == map_sum(
                self.internal@,
                changed(other.internal@, CoefficientChange::Negate),
            ),
    {
        let new_self = self.internal.clone().sub(other.internal);
        PlusMinusLindbladNoiseOperatorWrapper { internal: new_self }
    }

    /// Splits the noise operator into the terms whose left product acts on
    /// `number_spins_left` spins and whose right product acts on
    /// `number_spins_right` spins, and the other terms.
    pub fn separate_into_n_terms(&self, number_spins_left: usize, number_spins_right: usize) -> (r:
        Result<
            (PlusMinusLindbladNoiseOperatorWrapper, PlusMinusLindbladNoiseOperatorWrapper),
            StruqtureError,
        >)
        ensures
            r.is_ok(),
            r.unwrap().0.internal@ == selected(
                self.internal@,
                |key: PlusMinusPair|
                    key.0.len() == number_spins_left && key.1.len() == number_spins_right,
            ),
            r.unwrap().1.internal@ == selected(
                self.internal@,
                |key: PlusMinusPair|
                    !(key.0.len() == number_spins_left && key.1.len() == number_spins_right),
            ),
    {
        let shape = (number_spins_left, number_spins_right);
        match self.internal.separate_into_n_terms(shape) {
            Ok(result) => {
                proof {
                    assert(selected(
                        self.internal@,
                        |key: PlusMinusPair|
                            <(PlusMinusProduct, PlusMinusProduct) as OperatorKey>::has_shape(
                                key,
                                shape,
                            ),
                    ) =~= selected(
                        self.internal@,
                        |key: PlusMinusPair|
                            key.0.len() == number_spins_left && key.1.len() == number_spins_right,
                    ));
                    assert(selected(
                        self.internal@,
                        |key: PlusMinusPair|
                            !<(PlusMinusProduct, PlusMinusProduct) as OperatorKey>::has_shape(
                                key,
                                shape,
                            ),
                    ) =~= selected(
                        self.internal@,
                        |key: PlusMinusPair|
                            !(key.0.len() == number_spins_left && key.1.len() == number_spins_right),
                    ));
                }
                Ok(
                    (
                        PlusMinusLindbladNoiseOperatorWrapper { internal: result.0 },
                        PlusMinusLindbladNoiseOperatorWrapper { internal: result.1 },
                    ),
                )
            },
            Err(err) => Err(err),
        }
    }

    /// The noise terms of a system in the basis of raising and lowering
    /// operators: X is the sum of the two, iY their difference.
    pub fn from_spin_noise_system(value: &SpinLindbladNoiseSystem) -> (r: Result<
        PlusMinusLindbladNoiseOperatorWrapper,
        StruqtureError,
    >)
        ensures
            r.is_ok(),
            r.unwrap().internal@ == accumulate(
                Map::empty(),
                converted_pairs::<SingleDecoherenceOperator, SinglePlusMinusOperator>(value.terms()),
            ),
    {
        let system = value.operator();
        Ok(
            PlusMinusLindbladNoiseOperatorWrapper {
                internal: convert_noise_operator::<
                    SingleDecoherenceOperator,
                    SinglePlusMinusOperator,
                >(system),
            },
        )
    }

    /// The noise terms in the basis of X, iY and Z, as a system with the
    /// given number of spins: the raising operator is `(X + iY) / 2`, the
    /// lowering operator `(X - iY) / 2`.
    ///
    /// Fails with `CapacityExceeded` where a term reaches beyond the number
    /// of spins.
    pub fn to_spin_noise_system(&self, number_spins: Option<usize>) -> (r: Result<
        SpinLindbladNoiseSystemWrapper,
        StruqtureError,
    >)
        ensures
            ({
                let converted = accumulate(
                    Map::empty(),
                    converted_pairs::<SinglePlusMinusOperator, SingleDecoherenceOperator>(
                        self.internal.terms(),
                    ),
                );
                if within_capacity::<(DecoherenceProduct, DecoherenceProduct)>(
                    converted,
                    number_spins,
                ) {
                    r.is_ok() && r.unwrap().internal@ == converted && r.unwrap().internal.capacity()
                        == number_spins
                } else {
                    r == Err::<SpinLindbladNoiseSystemWrapper, StruqtureError>(
                        StruqtureError::CapacityExceeded,
                    )
                }
            }),
    {
        let result = convert_noise_operator::<SinglePlusMinusOperator, SingleDecoherenceOperator>(
            &self.internal,
        );
        match SpinLindbladNoiseSystem::from_operator(result, number_spins) {
            Ok(system) => Ok(SpinLindbladNoiseSystemWrapper { internal: system }),
            Err(err) => Err(err),
        }
    }
}

} // verus!
