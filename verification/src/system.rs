//! Systems: operators with a declared number of sites or modes.

use crate::coefficient::{coeff_of_real, coeff_sum};
use crate::error::StruqtureError;
use crate::key::{ConjugateKey, MultiplyKey, OperatorKey};
use crate::operator::{
    accumulate, all_products, changed, coefficient_in, conjugate_terms, lemma_reach, map_sum,
    plus_term, reach, same_terms, selected, takes, truncated, with_term, CoefficientChange, CoefficientRule,
    Operator, TermMap, Unrestricted,
};
use qoqo_calculator::CalculatorComplex;
use qoqo_calculator::CalculatorFloat;
use vstd::prelude::*;
use vstd::std_specs::cmp::PartialEqSpecImpl;

verus! {

/// Whether every product of an operator stays below a declared capacity.
pub open spec fn within_capacity<K: OperatorKey>(m: TermMap<K::V>, capacity: Option<usize>) -> bool {
    capacity.is_some() ==> forall|key: K::V| m.contains_key(key) ==> K::span(key) <= capacity.unwrap()
}

/// Whether one product stays below a declared capacity.
pub open spec fn key_fits<K: OperatorKey>(key: K::V, capacity: Option<usize>) -> bool {
    capacity.is_some() ==> K::span(key) <= capacity.unwrap()
}

/// Whether two declared numbers are the same.
pub fn same_number(a: Option<usize>, b: Option<usize>) -> (r: bool)
    ensures
        r == (a == b),
{
    match (a, b) {
        (Some(x), Some(y)) => x == y,
        (None, None) => true,
        _ => false,
    }
}

/// An operator together with the number of sites or modes that it may act
/// on. Where the number is declared, no term reaches beyond it.
#[derive(Debug)]
pub struct System<K: OperatorKey, R: CoefficientRule<K> = Unrestricted> {
    number: Option<usize>,
    operator: Operator<K, R>,
}

impl<K: OperatorKey, R: CoefficientRule<K>> View for System<K, R> {
    type V = TermMap<K::V>;

    closed spec fn view(&self) -> TermMap<K::V> {
        self.operator@
    }
}

impl<K: OperatorKey, R: CoefficientRule<K>> System<K, R> {
    #[verifier::type_invariant]
    closed spec fn well_formed(self) -> bool {
        within_capacity::<K>(self.operator@, self.number)
    }

    /// The declared number of sites or modes, if there is one.
    pub closed spec fn capacity(self) -> Option<usize> {
        self.number
    }

    /// The terms in the order in which the system holds them.
    pub closed spec fn terms(self) -> Seq<(K::V, CalculatorComplex)> {
        self.operator.terms()
    }

    /// A system without terms.
    pub fn new(number: Option<usize>) -> (r: Self)
        ensures
            r@ =~= Map::empty(),
            r.capacity() == number,
    {
        System { number, operator: Operator::new() }
    }

    /// A system without terms, with room set aside for `capacity` terms.
    pub fn with_capacity(number: Option<usize>, capacity: usize) -> (r: Self)
        ensures
            r@ =~= Map::empty(),
            r.capacity() == number,
    {
        System { number, operator: Operator::new() }
    }

    /// A system without terms that declares the given number of sites or
    /// modes, or the number that this system declares where none is given.
    pub fn empty_clone(&self, number: Option<usize>) -> (r: Self)
        ensures
            r@ =~= Map::empty(),
            r.capacity() == if number.is_some() {
                number
            } else {
                self.capacity()
            },
    {
        match number {
            Some(n) => System::new(Some(n)),
            None => System::new(self.number),
        }
    }

    /// The system that holds the terms of an operator.
    ///
    /// Fails with `CapacityExceeded`, and builds nothing, where a product of
    /// the operator reaches beyond the declared number.
    pub fn from_operator(operator: Operator<K, R>, number: Option<usize>) -> (r: Result<
        Self,
        StruqtureError,
    >)
        ensures
            within_capacity::<K>(operator@, number) ==> r.is_ok() && r.unwrap()@ == operator@
                && r.unwrap().capacity() == number && r.unwrap().terms() == operator.terms(),
            !within_capacity::<K>(operator@, number) ==> r == Err::<Self, StruqtureError>(
                StruqtureError::CapacityExceeded,
            ),
    {
        match number {
            None => Ok(System { number, operator }),
            Some(n) => {
                let reached = operator.current_span();
                let _ = operator.len();
                proof {
                    lemma_reach::<K>(operator.terms());
                    if reached <= n {
                        assert forall|key: K::V| operator@.contains_key(key) implies K::span(key)
                            <= n by {
                            let i = crate::operator::place_of(operator.terms(), key);
                            assert(operator.terms()[i].0 == key);
                        }
                    } else {
                        let i = choose|i: int|
                            0 <= i < operator.terms().len() && K::span(
                                (#[trigger] operator.terms()[i]).0,
                            ) == reach::<K>(operator.terms());
                        crate::operator::lemma_terms_map_at(operator.terms(), i);
                    }
                }
                if reached > n {
                    Err(StruqtureError::CapacityExceeded)
                } else {
                    Ok(System { number, operator })
                }
            },
        }
    }

    /// The declared number of sites or modes, if there is one.
    pub fn declared_number(&self) -> (r: Option<usize>)
        ensures
            r == self.capacity(),
    {
        self.number
    }

    /// The operator that holds the terms of the system, without the system.
    pub fn into_operator(self) -> (r: Operator<K, R>)
        ensures
            r@ == self@,
            r.terms() == self.terms(),
            within_capacity::<K>(self@, self.capacity()),
    {
        proof {
            use_type_invariant(&self);
        }
        self.operator
    }

    /// The operator that holds the terms of the system.
    pub fn operator(&self) -> (r: &Operator<K, R>)
        ensures
            r@ == self@,
            r.terms() == self.terms(),
            within_capacity::<K>(self@, self.capacity()),
    {
        proof {
            use_type_invariant(self);
        }
        &self.operator
    }

    /// The number of sites or modes of the system: the declared number, or
    /// the number that the terms reach where none is declared.
    pub open spec fn number_modes_spec(self) -> nat {
        match self.capacity() {
            Some(declared) => declared as nat,
            None => reach::<K>(self.terms()),
        }
    }

    /// The number of sites or modes of the system: the declared number, or
    /// the number that the terms reach where none is declared.
    pub fn number_modes(&self) -> (n: usize)
        ensures
            n == self.number_modes_spec(),
    {
        match self.number {
            Some(n) => n,
            None => self.operator.current_span(),
        }
    }

    /// The number of sites or modes that the terms reach. It is never above
    /// a declared number.
    pub fn current_number_modes(&self) -> (n: usize)
        ensures
            n == reach::<K>(self.terms()),
            self.capacity().is_some() ==> n <= self.capacity().unwrap(),
    {
        proof {
            use_type_invariant(self);
            lemma_reach::<K>(self.terms());
        }
        let n = self.operator.current_span();
        let _ = self.operator.len();
        proof {
            if self.terms().len() > 0 {
                let i = choose|i: int|
                    0 <= i < self.terms().len() && K::span((#[trigger] self.terms()[i]).0)
                        == reach::<K>(self.terms());
                crate::operator::lemma_terms_map_at(self.terms(), i);
            }
        }
        n
    }

    /// The number of terms.
    pub fn len(&self) -> (n: usize)
        ensures
            n == self@.len(),
            n == self.terms().len(),
    {
        self.operator.len()
    }

    /// Whether the system has no terms.
    pub fn is_empty(&self) -> (b: bool)
        ensures
            b == (self@ =~= Map::empty()),
    {
        self.operator.is_empty()
    }

    /// The coefficient of a product: zero where the system has no such term.
    pub fn get(&self, key: &K) -> (r: CalculatorComplex)
        ensures
            r == coefficient_in(self@, key@),
    {
        self.operator.get(key)
    }

    /// Sets the coefficient of a product, and returns the one it had.
    ///
    /// Fails with `CapacityExceeded`, and changes nothing, where the product
    /// reaches beyond the declared number. A coefficient that is zero takes
    /// the term out.
    pub fn set(&mut self, key: K, value: CalculatorComplex) -> (r: Result<
        Option<CalculatorComplex>,
        StruqtureError,
    >)
        ensures
            final(self).capacity() == old(self).capacity(),
            key_fits::<K>(key@, old(self).capacity()) && takes::<K, R>(key@, value) ==> final(self)@
                == with_term(old(self)@, key@, value) && r == Ok::<
                Option<CalculatorComplex>,
                StruqtureError,
            >(
                if old(self)@.contains_key(key@) {
                    Some(old(self)@[key@])
                } else {
                    None
                },
            ),
            r.is_err() ==> final(self)@ == old(self)@ && final(self).terms() == old(self).terms(),
            !key_fits::<K>(key@, old(self).capacity()) ==> r == Err::<
                Option<CalculatorComplex>,
                StruqtureError,
            >(StruqtureError::CapacityExceeded),
            key_fits::<K>(key@, old(self).capacity()) && !takes::<K, R>(key@, value) ==> r == Err::<
                Option<CalculatorComplex>,
                StruqtureError,
            >(StruqtureError::NonHermitianOperator),
    {
        proof {
            use_type_invariant(&*self);
        }
        match self.number {
            Some(n) => {
                if key.key_span() > n {
                    return Err(StruqtureError::CapacityExceeded);
                }
            },
            None => {},
        }
        let mut operator: Operator<K, R> = Operator::new();
        core::mem::swap(&mut self.operator, &mut operator);
        let r = operator.set(key, value);
        core::mem::swap(&mut self.operator, &mut operator);
        r
    }

    /// Adds a term to the system. The coefficient is added to the one that
    /// the product has; a sum that is zero takes the term out.
    ///
    /// Fails with `CapacityExceeded`, and changes nothing, where the product
    /// reaches beyond the declared number.
    pub fn add_operator_product(&mut self, key: K, value: CalculatorComplex) -> (r: Result<
        (),
        StruqtureError,
    >)
        ensures
            final(self).capacity() == old(self).capacity(),
            key_fits::<K>(key@, old(self).capacity()) && takes::<K, R>(
                key@,
                coeff_sum(coefficient_in(old(self)@, key@), value),
            ) ==> final(self)@ == plus_term(old(self)@, key@, value) && r.is_ok(),
            r.is_err() ==> final(self)@ == old(self)@ && final(self).terms() == old(self).terms(),
            !key_fits::<K>(key@, old(self).capacity()) ==> r == Err::<(), StruqtureError>(
                StruqtureError::CapacityExceeded,
            ),
            key_fits::<K>(key@, old(self).capacity()) && !takes::<K, R>(
                key@,
                coeff_sum(coefficient_in(old(self)@, key@), value),
            ) ==> r == Err::<(), StruqtureError>(StruqtureError::NonHermitianOperator),
    {
        proof {
            use_type_invariant(&*self);
        }
        match self.number {
            Some(n) => {
                if key.key_span() > n {
                    return Err(StruqtureError::CapacityExceeded);
                }
            },
            None => {},
        }
        let mut operator: Operator<K, R> = Operator::new();
        core::mem::swap(&mut self.operator, &mut operator);
        let r = operator.add_operator_product(key, value);
        core::mem::swap(&mut self.operator, &mut operator);
        r
    }

    /// Takes the term with the given product out, and returns its coefficient.
    pub fn remove(&mut self, key: &K) -> (r: Option<CalculatorComplex>)
        ensures
            final(self).capacity() == old(self).capacity(),
            final(self)@ == old(self)@.remove(key@),
            r == if old(self)@.contains_key(key@) {
                Some(old(self)@[key@])
            } else {
                None
            },
    {
        proof {
            use_type_invariant(&*self);
        }
        let mut operator: Operator<K, R> = Operator::new();
        core::mem::swap(&mut self.operator, &mut operator);
        let r = operator.remove(key);
        core::mem::swap(&mut self.operator, &mut operator);
        r
    }

    /// The sum of two systems that declare the same number of sites or modes.
    ///
    /// Fails with `CapacityMismatch` where they do not.
    pub fn add(self, other: System<K, R>) -> (r: Result<System<K, R>, StruqtureError>)
        ensures
            self.capacity() == other.capacity() ==> r.is_ok() && r.unwrap().capacity()
                == self.capacity() && r.unwrap()@ == map_sum(self@, other@),
            self.capacity() != other.capacity() ==> r == Err::<System<K, R>, StruqtureError>(
                StruqtureError::CapacityMismatch,
            ),
    {
        proof {
            use_type_invariant(&self);
            use_type_invariant(&other);
        }
        if !same_number(self.number, other.number) {
            return Err(StruqtureError::CapacityMismatch);
        }
        let number = self.number;
        let operator = self.operator.add(other.operator);
        Ok(System { number, operator })
    }

    /// The difference of two systems that declare the same number of sites
    /// or modes.
    ///
    /// Fails with `CapacityMismatch` where they do not.
    pub fn sub(self, other: System<K, R>) -> (r: Result<System<K, R>, StruqtureError>)
        ensures
            self.capacity() == other.capacity() ==> r.is_ok() && r.unwrap().capacity()
                == self.capacity() && r.unwrap()@ == map_sum(
                self@,
                changed(other@, CoefficientChange::Negate),
            ),
            self.capacity() != other.capacity() ==> r == Err::<System<K, R>, StruqtureError>(
                StruqtureError::CapacityMismatch,
            ),
    {
        proof {
            use_type_invariant(&self);
            use_type_invariant(&other);
        }
        if !same_number(self.number, other.number) {
            return Err(StruqtureError::CapacityMismatch);
        }
        let number = self.number;
        let operator = self.operator.sub(other.operator);
        Ok(System { number, operator })
    }

    /// The system times `-1`.
    pub fn neg(&self) -> (r: System<K, R>)
        ensures
            r.capacity() == self.capacity(),
            r@ == changed(self@, CoefficientChange::Negate),
    {
        proof {
            use_type_invariant(self);
        }
        System { number: self.number, operator: self.operator.neg() }
    }

    /// The system times a number.
    pub fn scale(&self, factor: CalculatorComplex) -> (r: System<K, Unrestricted>)
        ensures
            r.capacity() == self.capacity(),
            r@ == changed(self@, CoefficientChange::Scale(factor)),
    {
        proof {
            use_type_invariant(self);
        }
        System { number: self.number, operator: self.operator.scale(factor) }
    }

    /// The system times a real number.
    pub fn scale_real(&self, factor: &CalculatorFloat) -> (r: System<K, R>)
        ensures
            r.capacity() == self.capacity(),
            r@ == changed(self@, CoefficientChange::Scale(coeff_of_real(*factor))),
    {
        proof {
            use_type_invariant(self);
        }
        System { number: self.number, operator: self.operator.scale_real(factor) }
    }

    /// The system without the terms whose coefficients are numbers with a
    /// magnitude that is not above the threshold. Terms with symbolic
    /// coefficients stay.
    pub fn truncate(&self, threshold: &CalculatorFloat) -> (r: System<K, R>)
        ensures
            r.capacity() == self.capacity(),
            r@ == truncated(self@, *threshold),
    {
        proof {
            use_type_invariant(self);
        }
        System { number: self.number, operator: self.operator.truncate(threshold) }
    }

    /// Splits the system into the terms whose products have the given shape,
    /// and the other terms. Both parts declare the number of this system.
    pub fn separate_into_n_terms(&self, shape: K::Shape) -> (r: Result<
        (System<K, R>, System<K, R>),
        StruqtureError,
    >)
        ensures
            r.is_ok(),
            r.unwrap().0.capacity() == self.capacity(),
            r.unwrap().1.capacity() == self.capacity(),
            r.unwrap().0@ == selected(self@, |key: K::V| K::has_shape(key, shape)),
            r.unwrap().1@ == selected(self@, |key: K::V| !K::has_shape(key, shape)),
    {
        proof {
            use_type_invariant(self);
        }
        match self.operator.separate_into_n_terms(shape) {
            Ok(parts) => Ok(
                (
                    System { number: self.number, operator: parts.0 },
                    System { number: self.number, operator: parts.1 },
                ),
            ),
            Err(e) => Err(e),
        }
    }

    /// The terms of the system, in the order in which it holds them.
    pub fn into_terms(self) -> (r: Vec<(K, CalculatorComplex)>)
        ensures
            r@.map_values(|t: (K, CalculatorComplex)| (t.0@, t.1)) == self.terms(),
    {
        self.operator.into_terms()
    }

    /// The system as a general system, which takes every coefficient.
    pub fn into_general(self) -> (r: System<K, Unrestricted>)
        ensures
            r@ == self@,
            r.terms() == self.terms(),
            r.capacity() == self.capacity(),
    {
        proof {
            use_type_invariant(&self);
        }
        System { number: self.number, operator: self.operator.into_general() }
    }

    /// The products of the terms, in the order in which the system holds them.
    pub fn keys(&self) -> (r: Vec<K>)
        ensures
            r@.len() == self.terms().len(),
            forall|i: int| 0 <= i < r@.len() ==> (#[trigger] r@[i])@ == self.terms()[i].0,
    {
        self.operator.keys()
    }

    /// The coefficients of the terms, in the order in which the system holds them.
    pub fn values(&self) -> (r: Vec<CalculatorComplex>)
        ensures
            r@.len() == self.terms().len(),
            forall|i: int| 0 <= i < r@.len() ==> #[trigger] r@[i] == self.terms()[i].1,
    {
        self.operator.values()
    }
}

impl<K: ConjugateKey, R: CoefficientRule<K>> System<K, R> {
    /// The adjoint of the system.
    pub fn hermitian_conjugate(&self) -> (r: System<K, R>)
        ensures
            r.capacity() == self.capacity(),
            r@ == accumulate(Map::empty(), conjugate_terms::<K>(self.terms())),
    {
        proof {
            use_type_invariant(self);
        }
        let operator = self.operator.hermitian_conjugate();
        let _ = self.operator.len();
        proof {
            let terms = conjugate_terms::<K>(self.terms());
            crate::operator::lemma_accumulate_keys(Map::empty(), terms);
            if self.number.is_some() {
                assert forall|key: K::V| operator@.contains_key(key) implies K::span(key)
                    <= self.number.unwrap() by {
                    let i = crate::operator::place_of(terms, key);
                    assert(terms[i].0 == key);
                    crate::operator::lemma_terms_map_at(self.terms(), i);
                    K::lemma_conjugate_span(self.terms()[i].0);
                }
            }
        }
        System { number: self.number, operator }
    }
}

impl<K: OperatorKey> System<K, Unrestricted> {
    /// The system without a declared number that a row of terms adds up to.
    pub fn from_terms(terms: Vec<(K, CalculatorComplex)>) -> (r: System<K, Unrestricted>)
        ensures
            r.capacity().is_none(),
            r@ == accumulate(Map::empty(), terms@.map_values(|t: (K, CalculatorComplex)| (t.0@, t.1))),
    {
        System { number: None, operator: Operator::from_terms(terms) }
    }

    /// Adds a row of terms to the system, one after the other.
    ///
    /// Fails with `CapacityExceeded` at the first term that reaches beyond
    /// the declared number; the terms before it have been added then.
    pub fn extend(&mut self, terms: Vec<(K, CalculatorComplex)>) -> (r: Result<(), StruqtureError>)
        ensures
            final(self).capacity() == old(self).capacity(),
            (forall|i: int| 0 <= i < terms@.len() ==> key_fits::<K>((#[trigger] terms@[i]).0@, old(self).capacity()))
                ==> r.is_ok() && final(self)@ == accumulate(
                old(self)@,
                terms@.map_values(|t: (K, CalculatorComplex)| (t.0@, t.1)),
            ),
            (exists|i: int| 0 <= i < terms@.len() && !key_fits::<K>((#[trigger] terms@[i]).0@, old(self).capacity()))
                ==> r == Err::<(), StruqtureError>(StruqtureError::CapacityExceeded),
    {
        let ghost all = terms@.map_values(|t: (K, CalculatorComplex)| (t.0@, t.1));
        let mut i: usize = 0;
        assert(all.take(0) =~= Seq::empty());
        while i < terms.len()
            invariant
                i <= terms.len(),
                self.capacity() == old(self).capacity(),
                all == terms@.map_values(|t: (K, CalculatorComplex)| (t.0@, t.1)),
                self@ == accumulate(old(self)@, all.take(i as int)),
                forall|k: int| 0 <= k < i ==> key_fits::<K>((#[trigger] terms@[k]).0@, old(self).capacity()),
            decreases terms.len() - i,
        {
            proof {
                crate::operator::lemma_accumulate_push(
                    old(self)@,
                    all.take(i as int),
                    all[i as int].0,
                    all[i as int].1,
                );
                assert(all.take(i as int).push(all[i as int]) =~= all.take(i + 1));
            }
            let key = terms[i].0.copy_key();
            let value = crate::coefficient::coeff_clone(&terms[i].1);
            match self.add_operator_product(key, value) {
                Ok(_) => {},
                Err(e) => {
                    assert(!key_fits::<K>(terms@[i as int].0@, old(self).capacity()));
                    return Err(e);
                },
            }
            i += 1;
        }
        assert(all.take(i as int) =~= all);
        Ok(())
    }
}

impl<K: MultiplyKey, R: CoefficientRule<K>> System<K, R> {
    /// The product of two systems. It declares the larger of their numbers
    /// of sites or modes.
    pub fn mul<R2: CoefficientRule<K>>(&self, other: &System<K, R2>) -> (r: System<K, Unrestricted>)
        ensures
            r@ == accumulate(Map::empty(), all_products::<K>(self.terms(), other.terms())),
            r.capacity() == Some(
                if self.number_modes_spec() > other.number_modes_spec() {
                    self.number_modes_spec() as usize
                } else {
                    other.number_modes_spec() as usize
                },
            ),
    {
        let n = self.number_modes();
        let m = other.number_modes();
        let number = if n > m {
            n
        } else {
            m
        };
        let _ = self.current_number_modes();
        let _ = other.current_number_modes();
        let _ = self.len();
        let _ = other.len();
        let operator = self.operator.mul(&other.operator);
        proof {
            use_type_invariant(self);
            use_type_invariant(other);
            let all = all_products::<K>(self.terms(), other.terms());
            crate::operator::lemma_accumulate_keys(Map::empty(), all);
            crate::operator::lemma_all_products_origin::<K>(self.terms(), other.terms());
            lemma_reach::<K>(self.terms());
            lemma_reach::<K>(other.terms());
            assert forall|key: K::V| operator@.contains_key(key) implies K::span(key) <= number by {
                let p = crate::operator::place_of(all, key);
                assert(all[p].0 == key);
                assert(crate::operator::from_factors::<K>(all[p].0, self.terms(), other.terms()));
                let (i, j) = choose|i: int, j: int|
                    0 <= i < self.terms().len() && 0 <= j < other.terms().len()
                        && crate::operator::among_products::<K>(
                        key,
                        (#[trigger] self.terms()[i]).0,
                        (#[trigger] other.terms()[j]).0,
                    );
                let t = choose|t: int|
                    0 <= t < K::product(self.terms()[i].0, other.terms()[j].0).len() && (
                    #[trigger] K::product(self.terms()[i].0, other.terms()[j].0)[t]).0 == key;
                K::lemma_product_span(self.terms()[i].0, other.terms()[j].0);
                assert(K::span(self.terms()[i].0) <= reach::<K>(self.terms()));
                assert(K::span(other.terms()[j].0) <= reach::<K>(other.terms()));
            }
        }
        System { number: Some(number), operator }
    }
}

impl<K: OperatorKey, R: CoefficientRule<K>> Default for System<K, R> {
    fn default() -> (r: Self)
        ensures
            r@ =~= Map::empty(),
            r.capacity().is_none(),
    {
        System::new(None)
    }
}

impl<K: OperatorKey, R: CoefficientRule<K>> Clone for System<K, R> {
    fn clone(&self) -> (r: Self)
        ensures
            r@ == self@,
            r.capacity() == self.capacity(),
            r.terms() == self.terms(),
    {
        proof {
            use_type_invariant(self);
        }
        System { number: self.number, operator: self.operator.clone() }
    }
}

impl<K: OperatorKey, R: CoefficientRule<K>> PartialEq for System<K, R> {
    fn eq(&self, other: &Self) -> (r: bool) {
        same_number(self.number, other.number) && self.operator.eq(&other.operator)
    }
}

impl<K: OperatorKey, R: CoefficientRule<K>> PartialEqSpecImpl for System<K, R> {
    open spec fn obeys_eq_spec() -> bool {
        true
    }

    open spec fn eq_spec(&self, other: &Self) -> bool {
        self.capacity() == other.capacity() && same_terms(self@, other@)
    }
}

} // verus!
