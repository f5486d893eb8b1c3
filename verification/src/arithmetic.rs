//! The operators `+`, `-` and `*` on operators and systems.
//!
//! What each gives is stated in the contract of its function. The form in
//! which the operator traits themselves state a result asks for the result
//! as a value of the specification, which an operator with a hidden row of
//! terms does not offer; so each implementation declares that it states
//! nothing in that form.

use crate::coefficient::coeff_of_real;
use crate::error::StruqtureError;
use crate::key::{MultiplyKey, OperatorKey};
use crate::operator::{
    accumulate, all_products, changed, map_sum, CoefficientChange, CoefficientRule, Operator,
    Unrestricted,
};
use crate::system::System;
use core::ops::{Add, Mul, Neg, Sub};
use qoqo_calculator::CalculatorComplex;
use qoqo_calculator::CalculatorFloat;
use vstd::prelude::*;
use vstd::std_specs::ops::{AddSpecImpl, MulSpecImpl, NegSpecImpl, SubSpecImpl};

verus! {

impl<K: OperatorKey, R: CoefficientRule<K>> Neg for Operator<K, R> {
    type Output = Operator<K, R>;

    /// The operator times `-1`.
    fn neg(self) -> (r: Operator<K, R>)
        ensures
            r@ == changed(self@, CoefficientChange::Negate),
    {
        Operator::neg(&self)
    }
}

impl<K: OperatorKey, R: CoefficientRule<K>> NegSpecImpl for Operator<K, R> {
    open spec fn obeys_neg_spec() -> bool {
        false
    }

    open spec fn neg_req(self) -> bool {
        true
    }

    open spec fn neg_spec(self) -> Operator<K, R> {
        arbitrary()
    }
}

impl<K: OperatorKey, R: CoefficientRule<K>> Add<Operator<K, R>> for Operator<K, R> {
    type Output = Operator<K, R>;

    /// The sum of two operators.
    fn add(self, other: Operator<K, R>) -> (r: Operator<K, R>)
        ensures
            r@ == map_sum(self@, other@),
    {
        Operator::add(self, other)
    }
}

impl<K: OperatorKey, R: CoefficientRule<K>> AddSpecImpl<Operator<K, R>> for Operator<K, R> {
    open spec fn obeys_add_spec() -> bool {
        false
    }

    open spec fn add_req(self, other: Operator<K, R>) -> bool {
        true
    }

    open spec fn add_spec(self, other: Operator<K, R>) -> Operator<K, R> {
        arbitrary()
    }
}

impl<K: OperatorKey, R: CoefficientRule<K>> Sub<Operator<K, R>> for Operator<K, R> {
    type Output = Operator<K, R>;

    /// The difference of two operators.
    fn sub(self, other: Operator<K, R>) -> (r: Operator<K, R>)
        ensures
            r@ == map_sum(self@, changed(other@, CoefficientChange::Negate)),
    {
        Operator::sub(self, other)
    }
}

impl<K: OperatorKey, R: CoefficientRule<K>> SubSpecImpl<Operator<K, R>> for Operator<K, R> {
    open spec fn obeys_sub_spec() -> bool {
        false
    }

    open spec fn sub_req(self, other: Operator<K, R>) -> bool {
        true
    }

    open spec fn sub_spec(self, other: Operator<K, R>) -> Operator<K, R> {
        arbitrary()
    }
}

impl<K: OperatorKey, R: CoefficientRule<K>> Mul<CalculatorComplex> for Operator<K, R> {
    type Output = Operator<K, Unrestricted>;

    /// The operator times a complex number.
    fn mul(self, other: CalculatorComplex) -> (r: Operator<K, Unrestricted>)
        ensures
            r@ == changed(self@, CoefficientChange::Scale(other)),
    {
        self.scale(other)
    }
}

impl<K: OperatorKey, R: CoefficientRule<K>> MulSpecImpl<CalculatorComplex> for Operator<K, R> {
    open spec fn obeys_mul_spec() -> bool {
        false
    }

    open spec fn mul_req(self, other: CalculatorComplex) -> bool {
        true
    }

    open spec fn mul_spec(self, other: CalculatorComplex) -> Operator<K, Unrestricted> {
        arbitrary()
    }
}

impl<K: OperatorKey, R: CoefficientRule<K>> Mul<CalculatorFloat> for Operator<K, R> {
    type Output = Operator<K, R>;

    /// The operator times a real number.
    fn mul(self, other: CalculatorFloat) -> (r: Operator<K, R>)
        ensures
            r@ == changed(self@, CoefficientChange::Scale(coeff_of_real(other))),
    {
        self.scale_real(&other)
    }
}

impl<K: OperatorKey, R: CoefficientRule<K>> MulSpecImpl<CalculatorFloat> for Operator<K, R> {
    open spec fn obeys_mul_spec() -> bool {
        false
    }

    open spec fn mul_req(self, other: CalculatorFloat) -> bool {
        true
    }

    open spec fn mul_spec(self, other: CalculatorFloat) -> Operator<K, R> {
        arbitrary()
    }
}

impl<K: MultiplyKey, R: CoefficientRule<K>, R2: CoefficientRule<K>> Mul<Operator<K, R2>> for Operator<K, R> {
    type Output = Operator<K, Unrestricted>;

    /// The product of two operators.
    fn mul(self, other: Operator<K, R2>) -> (r: Operator<K, Unrestricted>)
        ensures
            r@ == accumulate(Map::empty(), all_products::<K>(self.terms(), other.terms())),
    {
        Operator::mul(&self, &other)
    }
}

impl<K: MultiplyKey, R: CoefficientRule<K>, R2: CoefficientRule<K>> MulSpecImpl<Operator<K, R2>> for Operator<K, R> {
    open spec fn obeys_mul_spec() -> bool {
        false
    }

    open spec fn mul_req(self, other: Operator<K, R2>) -> bool {
        true
    }

    open spec fn mul_spec(self, other: Operator<K, R2>) -> Operator<K, Unrestricted> {
        arbitrary()
    }
}

impl<K: OperatorKey, R: CoefficientRule<K>> Neg for System<K, R> {
    type Output = System<K, R>;

    /// The system times `-1`.
    fn neg(self) -> (r: System<K, R>)
        ensures
            r.capacity() == self.capacity(),
            r@ == changed(self@, CoefficientChange::Negate),
    {
        System::neg(&self)
    }
}

impl<K: OperatorKey, R: CoefficientRule<K>> NegSpecImpl for System<K, R> {
    open spec fn obeys_neg_spec() -> bool {
        false
    }

    open spec fn neg_req(self) -> bool {
        true
    }

    open spec fn neg_spec(self) -> System<K, R> {
        arbitrary()
    }
}

impl<K: OperatorKey, R: CoefficientRule<K>> Add<System<K, R>> for System<K, R> {
    type Output = Result<System<K, R>, StruqtureError>;

    /// The sum of two systems that declare the same number of sites or modes.
    fn add(self, other: System<K, R>) -> (r: Result<System<K, R>, StruqtureError>)
        ensures
            self.capacity() == other.capacity() ==> r.is_ok() && r.unwrap().capacity()
                == self.capacity() && r.unwrap()@ == map_sum(self@, other@),
            self.capacity() != other.capacity() ==> r == Err::<System<K, R>, StruqtureError>(
                StruqtureError::CapacityMismatch,
            ),
    {
        System::add(self, other)
    }
}

impl<K: OperatorKey, R: CoefficientRule<K>> AddSpecImpl<System<K, R>> for System<K, R> {
    open spec fn obeys_add_spec() -> bool {
        false
    }

    open spec fn add_req(self, other: System<K, R>) -> bool {
        true
    }

    open spec fn add_spec(self, other: System<K, R>) -> Result<System<K, R>, StruqtureError> {
        arbitrary()
    }
}

impl<K: OperatorKey, R: CoefficientRule<K>> Sub<System<K, R>> for System<K, R> {
    type Output = Result<System<K, R>, StruqtureError>;

    /// The difference of two systems that declare the same number of sites or modes.
    fn sub(self, other: System<K, R>) -> (r: Result<System<K, R>, StruqtureError>)
        ensures
            self.capacity() == other.capacity() ==> r.is_ok() && r.unwrap().capacity()
                == self.capacity() && r.unwrap()@ == map_sum(
                self@,
                changed(other@, CoefficientChange::Negate),
            ),
            self.capacity() != other.capacity() ==> r == Err::<System<K, R>, StruqtureError>(
                StruqtureError::CapacityMismatch,
            ),
    {
        System::sub(self, other)
    }
}

impl<K: OperatorKey, R: CoefficientRule<K>> SubSpecImpl<System<K, R>> for System<K, R> {
    open spec fn obeys_sub_spec() -> bool {
        false
    }

    open spec fn sub_req(self, other: System<K, R>) -> bool {
        true
    }

    open spec fn sub_spec(self, other: System<K, R>) -> Result<System<K, R>, StruqtureError> {
        arbitrary()
    }
}

impl<K: OperatorKey, R: CoefficientRule<K>> Mul<CalculatorComplex> for System<K, R> {
    type Output = System<K, Unrestricted>;

    /// The system times a complex number.
    fn mul(self, other: CalculatorComplex) -> (r: System<K, Unrestricted>)
        ensures
            r.capacity() == self.capacity(),
            r@ == changed(self@, CoefficientChange::Scale(other)),
    {
        self.scale(other)
    }
}

impl<K: OperatorKey, R: CoefficientRule<K>> MulSpecImpl<CalculatorComplex> for System<K, R> {
    open spec fn obeys_mul_spec() -> bool {
        false
    }

    open spec fn mul_req(self, other: CalculatorComplex) -> bool {
        true
    }

    open spec fn mul_spec(self, other: CalculatorComplex) -> System<K, Unrestricted> {
        arbitrary()
    }
}

impl<K: OperatorKey, R: CoefficientRule<K>> Mul<CalculatorFloat> for System<K, R> {
    type Output = System<K, R>;

    /// The system times a real number.
    fn mul(self, other: CalculatorFloat) -> (r: System<K, R>)
        ensures
            r.capacity() == self.capacity(),
            r@ == changed(self@, CoefficientChange::Scale(coeff_of_real(other))),
    {
        self.scale_real(&other)
    }
}

impl<K: OperatorKey, R: CoefficientRule<K>> MulSpecImpl<CalculatorFloat> for System<K, R> {
    open spec fn obeys_mul_spec() -> bool {
        false
    }

    open spec fn mul_req(self, other: CalculatorFloat) -> bool {
        true
    }

    open spec fn mul_spec(self, other: CalculatorFloat) -> System<K, R> {
        arbitrary()
    }
}

impl<K: MultiplyKey, R: CoefficientRule<K>, R2: CoefficientRule<K>> Mul<System<K, R2>> for System<K, R> {
    type Output = System<K, Unrestricted>;

    /// The product of two systems.
    fn mul(self, other: System<K, R2>) -> (r: System<K, Unrestricted>)
        ensures
            r@ == accumulate(Map::empty(), all_products::<K>(self.terms(), other.terms())),
    {
        System::mul(&self, &other)
    }
}

impl<K: MultiplyKey, R: CoefficientRule<K>, R2: CoefficientRule<K>> MulSpecImpl<System<K, R2>> for System<K, R> {
    open spec fn obeys_mul_spec() -> bool {
        false
    }

    open spec fn mul_req(self, other: System<K, R2>) -> bool {
        true
    }

    open spec fn mul_spec(self, other: System<K, R2>) -> System<K, Unrestricted> {
        arbitrary()
    }
}

} // verus!
