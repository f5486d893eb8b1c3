//! Open systems: a Hamiltonian together with Lindblad noise.
//!
//! The Hamiltonian holds products that stand for themselves and their
//! adjoints, so that it is Hermitian by construction. The noise terms are
//! labelled by pairs of products, left and right, which are independent.
//! Both halves declare the same number of sites or modes.

use crate::coefficient::coeff_sum;
use crate::error::StruqtureError;
use crate::key::{ConjugateKey, OperatorKey};
use crate::operator::{
    changed, coefficient_in, map_sum, plus_term, reach, same_terms, takes, truncated, with_term,
    CoefficientChange, SelfAdjoint, TermMap, Unrestricted,
};
use crate::system::{key_fits, within_capacity, System};
use qoqo_calculator::CalculatorComplex;
use qoqo_calculator::CalculatorFloat;
use vstd::prelude::*;
use vstd::std_specs::cmp::PartialEqSpecImpl;

verus! {

/// A Hamiltonian and Lindblad noise terms for one number of sites or modes.
#[derive(Debug)]
pub struct OpenSystem<H: ConjugateKey, N: OperatorKey> {
    system: System<H, SelfAdjoint>,
    noise: System<(N, N), Unrestricted>,
}

/// The number that an open system declares where its halves are to declare
/// the given numbers: the number of both where they agree, and the number
/// of one where the other declares none. There is none where both declare
/// different numbers.
pub open spec fn common_number(system: Option<usize>, noise: Option<usize>) -> Option<Option<usize>> {
    match (system, noise) {
        (Some(a), Some(b)) => if a == b {
            Some(Some(a))
        } else {
            None
        },
        (Some(a), None) => Some(Some(a)),
        (None, Some(b)) => Some(Some(b)),
        (None, None) => Some(None),
    }
}

impl<H: ConjugateKey, N: OperatorKey> OpenSystem<H, N> {
    #[verifier::type_invariant]
    closed spec fn well_formed(self) -> bool {
        self.system.capacity() == self.noise.capacity()
    }

    /// The terms of the Hamiltonian.
    pub closed spec fn system_terms(self) -> TermMap<H::V> {
        self.system@
    }

    /// The noise terms.
    pub closed spec fn noise_terms(self) -> TermMap<(N::V, N::V)> {
        self.noise@
    }

    /// The terms of the Hamiltonian in the order in which it holds them.
    pub closed spec fn system_rows(self) -> Seq<(H::V, CalculatorComplex)> {
        self.system.terms()
    }

    /// The noise terms in the order in which the noise holds them.
    pub closed spec fn noise_rows(self) -> Seq<((N::V, N::V), CalculatorComplex)> {
        self.noise.terms()
    }

    /// The declared number of sites or modes, if there is one.
    pub closed spec fn capacity(self) -> Option<usize> {
        self.system.capacity()
    }

    /// The number of sites or modes that the terms of both halves reach.
    pub closed spec fn reach(self) -> nat {
        if reach::<H>(self.system.terms()) > reach::<(N, N)>(self.noise.terms()) {
            reach::<H>(self.system.terms())
        } else {
            reach::<(N, N)>(self.noise.terms())
        }
    }

    /// An open system without terms.
    pub fn new(number: Option<usize>) -> (r: Self)
        ensures
            r.capacity() == number,
            r.system_terms() =~= Map::empty(),
            r.noise_terms() =~= Map::empty(),
    {
        OpenSystem { system: System::new(number), noise: System::new(number) }
    }

    /// The open system with the given Hamiltonian and the given noise.
    ///
    /// Where one of the two declares no number of sites or modes, it takes
    /// the number of the other. Fails with `CapacityMismatch` where they
    /// declare different numbers, and with `CapacityExceeded` where the one
    /// without a number reaches beyond the number of the other.
    pub fn group(system: System<H, SelfAdjoint>, noise: System<(N, N), Unrestricted>) -> (r: Result<
        Self,
        StruqtureError,
    >)
        ensures
            match common_number(system.capacity(), noise.capacity()) {
                None => r == Err::<Self, StruqtureError>(StruqtureError::CapacityMismatch),
                Some(number) => if within_capacity::<H>(system@, number) && within_capacity::<(N, N)>(
                    noise@,
                    number,
                ) {
                    r.is_ok() && r.unwrap().capacity() == number && r.unwrap().system_terms()
                        == system@ && r.unwrap().noise_terms() == noise@
                } else {
                    r == Err::<Self, StruqtureError>(StruqtureError::CapacityExceeded)
                },
            },
    {
        let system_number = system.declared_number();
        let noise_number = noise.declared_number();
        let number = match (system_number, noise_number) {
            (Some(a), Some(b)) => {
                if a != b {
                    return Err(StruqtureError::CapacityMismatch);
                }
                Some(a)
            },
            (Some(a), None) => Some(a),
            (None, Some(b)) => Some(b),
            (None, None) => None,
        };
        let system = match System::from_operator(system.into_operator(), number) {
            Ok(system) => system,
            Err(e) => {
                return Err(e);
            },
        };
        let noise = match System::from_operator(noise.into_operator(), number) {
            Ok(noise) => noise,
            Err(e) => {
                return Err(e);
            },
        };
        Ok(OpenSystem { system, noise })
    }

    /// The Hamiltonian and the noise of the open system.
    pub fn ungroup(self) -> (r: (System<H, SelfAdjoint>, System<(N, N), Unrestricted>))
        ensures
            r.0@ == self.system_terms(),
            r.1@ == self.noise_terms(),
            r.0.capacity() == self.capacity(),
            r.1.capacity() == self.capacity(),
    {
        proof {
            use_type_invariant(&self);
        }
        (self.system, self.noise)
    }

    /// The Hamiltonian of the open system.
    pub fn system(&self) -> (r: &System<H, SelfAdjoint>)
        ensures
            r@ == self.system_terms(),
            r.terms() == self.system_rows(),
            r.capacity() == self.capacity(),
    {
        &self.system
    }

    /// The noise of the open system.
    pub fn noise(&self) -> (r: &System<(N, N), Unrestricted>)
        ensures
            r@ == self.noise_terms(),
            r.terms() == self.noise_rows(),
            r.capacity() == self.capacity(),
    {
        proof {
            use_type_invariant(self);
        }
        &self.noise
    }

    /// The number of sites or modes of the open system: the declared
    /// number, or the number that the terms reach where none is declared.
    pub fn number_modes(&self) -> (n: usize)
        ensures
            n == match self.capacity() {
                Some(declared) => declared as nat,
                None => self.reach(),
            },
    {
        proof {
            use_type_invariant(self);
        }
        let a = self.system.number_modes();
        let b = self.noise.number_modes();
        if a > b {
            a
        } else {
            b
        }
    }

    /// The number of sites or modes that the terms reach. It is never above
    /// a declared number.
    pub fn current_number_modes(&self) -> (n: usize)
        ensures
            n == self.reach(),
            self.capacity().is_some() ==> n <= self.capacity().unwrap(),
    {
        proof {
            use_type_invariant(self);
        }
        let a = self.system.current_number_modes();
        let b = self.noise.current_number_modes();
        if a > b {
            a
        } else {
            b
        }
    }

    /// An open system without terms that declares the given number of sites
    /// or modes, or the number that this open system declares where none is
    /// given.
    pub fn empty_clone(&self, number: Option<usize>) -> (r: Self)
        ensures
            r.system_terms() =~= Map::empty(),
            r.noise_terms() =~= Map::empty(),
            r.capacity() == if number.is_some() {
                number
            } else {
                self.capacity()
            },
    {
        match number {
            Some(n) => OpenSystem::new(Some(n)),
            None => OpenSystem::new(self.system.declared_number()),
        }
    }

    /// Sets the coefficient of a product of the Hamiltonian, and returns the
    /// one it had.
    ///
    /// Fails, and changes nothing, with `CapacityExceeded` where the product
    /// reaches beyond the declared number, and with `NonHermitianOperator`
    /// where the product is its own adjoint and the coefficient has an
    /// imaginary part.
    pub fn system_set(&mut self, key: H, value: CalculatorComplex) -> (r: Result<
        Option<CalculatorComplex>,
        StruqtureError,
    >)
        ensures
            final(self).capacity() == old(self).capacity(),
            final(self).noise_terms() == old(self).noise_terms(),
            key_fits::<H>(key@, old(self).capacity()) && takes::<H, SelfAdjoint>(key@, value)
                ==> final(self).system_terms() == with_term(old(self).system_terms(), key@, value)
                && r == Ok::<Option<CalculatorComplex>, StruqtureError>(
                if old(self).system_terms().contains_key(key@) {
                    Some(old(self).system_terms()[key@])
                } else {
                    None
                },
            ),
            r.is_err() ==> final(self).system_terms() == old(self).system_terms(),
            !key_fits::<H>(key@, old(self).capacity()) ==> r == Err::<
                Option<CalculatorComplex>,
                StruqtureError,
            >(StruqtureError::CapacityExceeded),
            key_fits::<H>(key@, old(self).capacity()) && !takes::<H, SelfAdjoint>(key@, value) ==> r
                == Err::<Option<CalculatorComplex>, StruqtureError>(
                StruqtureError::NonHermitianOperator,
            ),
    {
        proof {
            use_type_invariant(&*self);
        }
        let mut system: System<H, SelfAdjoint> = System::new(self.system.declared_number());
        core::mem::swap(&mut self.system, &mut system);
        let r = system.set(key, value);
        core::mem::swap(&mut self.system, &mut system);
        r
    }

    /// Adds a term to the Hamiltonian.
    ///
    /// Fails, and changes nothing, with `CapacityExceeded` where the product
    /// reaches beyond the declared number, and with `NonHermitianOperator`
    /// where the product is its own adjoint and the sum of the coefficients
    /// has an imaginary part.
    pub fn system_add_operator_product(&mut self, key: H, value: CalculatorComplex) -> (r: Result<
        (),
        StruqtureError,
    >)
        ensures
            final(self).capacity() == old(self).capacity(),
            final(self).noise_terms() == old(self).noise_terms(),
            key_fits::<H>(key@, old(self).capacity()) && takes::<H, SelfAdjoint>(
                key@,
                coeff_sum(coefficient_in(old(self).system_terms(), key@), value),
            ) ==> final(self).system_terms() == plus_term(old(self).system_terms(), key@, value)
                && r.is_ok(),
            r.is_err() ==> final(self).system_terms() == old(self).system_terms(),
            !key_fits::<H>(key@, old(self).capacity()) ==> r == Err::<(), StruqtureError>(
                StruqtureError::CapacityExceeded,
            ),
            key_fits::<H>(key@, old(self).capacity()) && !takes::<H, SelfAdjoint>(
                key@,
                coeff_sum(coefficient_in(old(self).system_terms(), key@), value),
            ) ==> r == Err::<(), StruqtureError>(StruqtureError::NonHermitianOperator),
    {
        proof {
            use_type_invariant(&*self);
        }
        let mut system: System<H, SelfAdjoint> = System::new(self.system.declared_number());
        core::mem::swap(&mut self.system, &mut system);
        let r = system.add_operator_product(key, value);
        core::mem::swap(&mut self.system, &mut system);
        r
    }

    /// Sets the coefficient of a noise term, and returns the one it had.
    ///
    /// Fails with `CapacityExceeded`, and changes nothing, where a product
    /// of the pair reaches beyond the declared number.
    pub fn noise_set(&mut self, key: (N, N), value: CalculatorComplex) -> (r: Result<
        Option<CalculatorComplex>,
        StruqtureError,
    >)
        ensures
            final(self).capacity() == old(self).capacity(),
            final(self).system_terms() == old(self).system_terms(),
            key_fits::<(N, N)>(key@, old(self).capacity()) ==> final(self).noise_terms()
                == with_term(old(self).noise_terms(), key@, value) && r == Ok::<
                Option<CalculatorComplex>,
                StruqtureError,
            >(
                if old(self).noise_terms().contains_key(key@) {
                    Some(old(self).noise_terms()[key@])
                } else {
                    None
                },
            ),
            !key_fits::<(N, N)>(key@, old(self).capacity()) ==> final(self).noise_terms() == old(
                self,
            ).noise_terms() && r == Err::<Option<CalculatorComplex>, StruqtureError>(
                StruqtureError::CapacityExceeded,
            ),
    {
        proof {
            use_type_invariant(&*self);
        }
        let mut noise: System<(N, N), Unrestricted> = System::new(self.noise.declared_number());
        core::mem::swap(&mut self.noise, &mut noise);
        let r = noise.set(key, value);
        core::mem::swap(&mut self.noise, &mut noise);
        r
    }

    /// Adds a noise term.
    ///
    /// Fails with `CapacityExceeded`, and changes nothing, where a product
    /// of the pair reaches beyond the declared number.
    pub fn noise_add_operator_product(&mut self, key: (N, N), value: CalculatorComplex) -> (r:
        Result<(), StruqtureError>)
        ensures
            final(self).capacity() == old(self).capacity(),
            final(self).system_terms() == old(self).system_terms(),
            key_fits::<(N, N)>(key@, old(self).capacity()) ==> final(self).noise_terms()
                == plus_term(old(self).noise_terms(), key@, value) && r.is_ok(),
            !key_fits::<(N, N)>(key@, old(self).capacity()) ==> final(self).noise_terms() == old(
                self,
            ).noise_terms() && r == Err::<(), StruqtureError>(StruqtureError::CapacityExceeded),
    {
        proof {
            use_type_invariant(&*self);
        }
        let mut noise: System<(N, N), Unrestricted> = System::new(self.noise.declared_number());
        core::mem::swap(&mut self.noise, &mut noise);
        let r = noise.add_operator_product(key, value);
        core::mem::swap(&mut self.noise, &mut noise);
        r
    }

    /// The open system without the terms whose coefficients are numbers
    /// with a magnitude that is not above the threshold: both halves are
    /// truncated.
    pub fn truncate(&self, threshold: &CalculatorFloat) -> (r: Self)
        ensures
            r.capacity() == self.capacity(),
            r.system_terms() == truncated(self.system_terms(), *threshold),
            r.noise_terms() == truncated(self.noise_terms(), *threshold),
    {
        proof {
            use_type_invariant(self);
        }
        OpenSystem {
            system: self.system.truncate(threshold),
            noise: self.noise.truncate(threshold),
        }
    }

    /// The open system times `-1`.
    pub fn neg(&self) -> (r: Self)
        ensures
            r.capacity() == self.capacity(),
            r.system_terms() == changed(self.system_terms(), CoefficientChange::Negate),
            r.noise_terms() == changed(self.noise_terms(), CoefficientChange::Negate),
    {
        proof {
            use_type_invariant(self);
        }
        OpenSystem { system: self.system.neg(), noise: self.noise.neg() }
    }

    /// The open system times a real number.
    pub fn scale_real(&self, factor: &CalculatorFloat) -> (r: Self)
        ensures
            r.capacity() == self.capacity(),
            r.system_terms() == changed(
                self.system_terms(),
                CoefficientChange::Scale(crate::coefficient::coeff_of_real(*factor)),
            ),
            r.noise_terms() == changed(
                self.noise_terms(),
                CoefficientChange::Scale(crate::coefficient::coeff_of_real(*factor)),
            ),
    {
        proof {
            use_type_invariant(self);
        }
        OpenSystem { system: self.system.scale_real(factor), noise: self.noise.scale_real(factor) }
    }

    /// The sum of two open systems that declare the same number of sites or
    /// modes.
    ///
    /// Fails with `CapacityMismatch` where they do not.
    pub fn add(self, other: Self) -> (r: Result<Self, StruqtureError>)
        ensures
            self.capacity() == other.capacity() ==> r.is_ok() && r.unwrap().capacity()
                == self.capacity() && r.unwrap().system_terms() == map_sum(
                self.system_terms(),
                other.system_terms(),
            ) && r.unwrap().noise_terms() == map_sum(self.noise_terms(), other.noise_terms()),
            self.capacity() != other.capacity() ==> r == Err::<Self, StruqtureError>(
                StruqtureError::CapacityMismatch,
            ),
    {
        proof {
            use_type_invariant(&self);
            use_type_invariant(&other);
        }
        let system = match self.system.add(other.system) {
            Ok(system) => system,
            Err(e) => {
                return Err(e);
            },
        };
        let noise = match self.noise.add(other.noise) {
            Ok(noise) => noise,
            Err(e) => {
                return Err(e);
            },
        };
        Ok(OpenSystem { system, noise })
    }

    /// The difference of two open systems that declare the same number of
    /// sites or modes.
    ///
    /// Fails with `CapacityMismatch` where they do not.
    pub fn sub(self, other: Self) -> (r: Result<Self, StruqtureError>)
        ensures
            self.capacity() == other.capacity() ==> r.is_ok() && r.unwrap().capacity()
                == self.capacity() && r.unwrap().system_terms() == map_sum(
                self.system_terms(),
                changed(other.system_terms(), CoefficientChange::Negate),
            ) && r.unwrap().noise_terms() == map_sum(
                self.noise_terms(),
                changed(other.noise_terms(), CoefficientChange::Negate),
            ),
            self.capacity() != other.capacity() ==> r == Err::<Self, StruqtureError>(
                StruqtureError::CapacityMismatch,
            ),
    {
        proof {
            use_type_invariant(&self);
            use_type_invariant(&other);
        }
        let system = match self.system.sub(other.system) {
            Ok(system) => system,
            Err(e) => {
                return Err(e);
            },
        };
        let noise = match self.noise.sub(other.noise) {
            Ok(noise) => noise,
            Err(e) => {
                return Err(e);
            },
        };
        Ok(OpenSystem { system, noise })
    }
}

impl<H: ConjugateKey, N: OperatorKey> Default for OpenSystem<H, N> {
    fn default() -> (r: Self)
        ensures
            r.capacity().is_none(),
            r.system_terms() =~= Map::empty(),
            r.noise_terms() =~= Map::empty(),
    {
        OpenSystem::new(None)
    }
}

impl<H: ConjugateKey, N: OperatorKey> Clone for OpenSystem<H, N> {
    fn clone(&self) -> (r: Self)
        ensures
            r.capacity() == self.capacity(),
            r.system_terms() == self.system_terms(),
            r.noise_terms() == self.noise_terms(),
    {
        proof {
            use_type_invariant(self);
        }
        OpenSystem { system: self.system.clone(), noise: self.noise.clone() }
    }
}

impl<H: ConjugateKey, N: OperatorKey> PartialEq for OpenSystem<H, N> {
    fn eq(&self, other: &Self) -> (r: bool) {
        proof {
            use_type_invariant(self);
            use_type_invariant(other);
        }
        self.system.eq(&other.system) && self.noise.eq(&other.noise)
    }
}

impl<H: ConjugateKey, N: OperatorKey> PartialEqSpecImpl for OpenSystem<H, N> {
    open spec fn obeys_eq_spec() -> bool {
        true
    }

    open spec fn eq_spec(&self, other: &Self) -> bool {
        &&& self.capacity() == other.capacity()
        &&& same_terms(self.system_terms(), other.system_terms())
        &&& same_terms(self.noise_terms(), other.noise_terms())
    }
}

} // verus!
