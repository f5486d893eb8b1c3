//! Tests of the interface of noise operators in the basis of raising and
//! lowering operators.

use qoqo_calculator::CalculatorComplex;
use struqture::error::StruqtureError;
use struqture::spins::{
    DecoherenceProduct, PlusMinusLindbladNoiseOperatorWrapper, PlusMinusProduct,
    SpinLindbladNoiseSystem,
};

fn pair(left: PlusMinusProduct, right: PlusMinusProduct) -> (PlusMinusProduct, PlusMinusProduct) {
    (left, right)
}

#[test]
fn plus_minus_noise_new_is_empty() {
    let wrapper = PlusMinusLindbladNoiseOperatorWrapper::new();
    assert!(wrapper.internal.is_empty());
    assert_eq!(wrapper, PlusMinusLindbladNoiseOperatorWrapper::default());
}

#[test]
fn plus_minus_noise_neg_add_sub() {
    let dp = PlusMinusProduct::new().z(0).plus(1);
    let other = PlusMinusProduct::new().minus(0);
    let mut a = PlusMinusLindbladNoiseOperatorWrapper::new();
    a.internal
        .add_operator_product(pair(dp.clone(), dp.clone()), CalculatorComplex::from(2.0))
        .unwrap();
    let mut b = PlusMinusLindbladNoiseOperatorWrapper::new();
    b.internal
        .add_operator_product(pair(dp.clone(), other.clone()), CalculatorComplex::from(0.5))
        .unwrap();
    b.internal
        .add_operator_product(pair(dp.clone(), dp.clone()), CalculatorComplex::from(1.0))
        .unwrap();

    let negated = a.__neg__();
    assert_eq!(
        negated.internal.get(&pair(dp.clone(), dp.clone())),
        CalculatorComplex::from(-2.0)
    );

    let sum = a.__add__(b.clone());
    assert_eq!(sum.internal.len(), 2);
    assert_eq!(
        sum.internal.get(&pair(dp.clone(), dp.clone())),
        CalculatorComplex::from(3.0)
    );
    assert_eq!(
        sum.internal.get(&pair(dp.clone(), other.clone())),
        CalculatorComplex::from(0.5)
    );
    // the order of a pair matters
    assert_eq!(
        sum.internal.get(&pair(other.clone(), dp.clone())),
        CalculatorComplex::from(0.0)
    );

    let difference = a.__sub__(b);
    assert_eq!(
        difference.internal.get(&pair(dp.clone(), dp.clone())),
        CalculatorComplex::from(1.0)
    );
    assert_eq!(
        difference.internal.get(&pair(dp.clone(), other)),
        CalculatorComplex::from(-0.5)
    );
    // a difference that vanishes leaves no term
    let nothing = a.__sub__(a.clone());
    assert!(nothing.internal.is_empty());
}

#[test]
fn plus_minus_noise_separate_into_n_terms() {
    let one = PlusMinusProduct::new().plus(0);
    let two = PlusMinusProduct::new().plus(0).z(2);
    let mut wrapper = PlusMinusLindbladNoiseOperatorWrapper::new();
    wrapper
        .internal
        .add_operator_product(pair(one.clone(), one.clone()), CalculatorComplex::from(1.0))
        .unwrap();
    wrapper
        .internal
        .add_operator_product(pair(one.clone(), two.clone()), CalculatorComplex::from(2.0))
        .unwrap();
    wrapper
        .internal
        .add_operator_product(pair(two.clone(), one.clone()), CalculatorComplex::from(3.0))
        .unwrap();
    let (matching, others) = wrapper.separate_into_n_terms(1, 2).unwrap();
    assert_eq!(matching.internal.len(), 1);
    assert_eq!(
        matching.internal.get(&pair(one.clone(), two.clone())),
        CalculatorComplex::from(2.0)
    );
    assert_eq!(others.internal.len(), 2);
    assert_eq!(
        others.internal.get(&pair(one.clone(), one)),
        CalculatorComplex::from(1.0)
    );
}

#[test]
fn plus_minus_noise_to_spin_noise_system() {
    // (+, Z) with 4: + = (X + iY) / 2
    let mut wrapper = PlusMinusLindbladNoiseOperatorWrapper::new();
    wrapper
        .internal
        .add_operator_product(
            pair(PlusMinusProduct::new().plus(0), PlusMinusProduct::new().z(1)),
            CalculatorComplex::from(4.0),
        )
        .unwrap();
    let system = wrapper.to_spin_noise_system(Some(2)).unwrap();
    let mut expected = SpinLindbladNoiseSystem::new(Some(2));
    expected
        .add_operator_product(
            (DecoherenceProduct::new().x(0), DecoherenceProduct::new().z(1)),
            CalculatorComplex::from(2.0),
        )
        .unwrap();
    expected
        .add_operator_product(
            (DecoherenceProduct::new().iy(0), DecoherenceProduct::new().z(1)),
            CalculatorComplex::from(2.0),
        )
        .unwrap();
    assert_eq!(system.internal, expected);

    // (-, -) with 4: - = (X - iY) / 2 on both sides
    let mut wrapper = PlusMinusLindbladNoiseOperatorWrapper::new();
    wrapper
        .internal
        .add_operator_product(
            pair(PlusMinusProduct::new().minus(0), PlusMinusProduct::new().minus(0)),
            CalculatorComplex::from(4.0),
        )
        .unwrap();
    let system = wrapper.to_spin_noise_system(None).unwrap();
    let x = DecoherenceProduct::new().x(0);
    let iy = DecoherenceProduct::new().iy(0);
    assert_eq!(system.internal.len(), 4);
    assert_eq!(
        system.internal.get(&(x.clone(), x.clone())),
        CalculatorComplex::from(1.0)
    );
    assert_eq!(
        system.internal.get(&(x.clone(), iy.clone())),
        CalculatorComplex::from(-1.0)
    );
    assert_eq!(
        system.internal.get(&(iy.clone(), x)),
        CalculatorComplex::from(-1.0)
    );
    assert_eq!(
        system.internal.get(&(iy.clone(), iy)),
        CalculatorComplex::from(1.0)
    );

    // too few spins
    assert_eq!(
        wrapper.to_spin_noise_system(Some(0)),
        Err(StruqtureError::CapacityExceeded)
    );
}

#[test]
fn plus_minus_noise_from_spin_noise_system() {
    // (X, iY) with 1: X = + + -, iY = + - -
    let mut system = SpinLindbladNoiseSystem::new(Some(1));
    system
        .add_operator_product(
            (DecoherenceProduct::new().x(0), DecoherenceProduct::new().iy(0)),
            CalculatorComplex::from(1.0),
        )
        .unwrap();
    let wrapper = PlusMinusLindbladNoiseOperatorWrapper::from_spin_noise_system(&system).unwrap();
    let plus = PlusMinusProduct::new().plus(0);
    let minus = PlusMinusProduct::new().minus(0);
    assert_eq!(wrapper.internal.len(), 4);
    assert_eq!(
        wrapper.internal.get(&pair(plus.clone(), plus.clone())),
        CalculatorComplex::from(1.0)
    );
    assert_eq!(
        wrapper.internal.get(&pair(plus.clone(), minus.clone())),
        CalculatorComplex::from(-1.0)
    );
    assert_eq!(
        wrapper.internal.get(&pair(minus.clone(), plus)),
        CalculatorComplex::from(1.0)
    );
    assert_eq!(
        wrapper.internal.get(&pair(minus.clone(), minus)),
        CalculatorComplex::from(-1.0)
    );
}

#[test]
fn plus_minus_noise_round_trip_through_spin_noise() {
    let mut system = SpinLindbladNoiseSystem::new(Some(3));
    system
        .add_operator_product(
            (
                DecoherenceProduct::new().x(0).z(2),
                DecoherenceProduct::new().iy(1),
            ),
            CalculatorComplex::new(1.0, 2.0),
        )
        .unwrap();
    let wrapper = PlusMinusLindbladNoiseOperatorWrapper::from_spin_noise_system(&system).unwrap();
    let back = wrapper.to_spin_noise_system(Some(3)).unwrap();
    assert_eq!(back.internal, system);
}

#[test]
fn plus_minus_product_text() {
    let product = PlusMinusProduct::new().z(0).plus(1).minus(12);
    assert_eq!(product.to_string(), "0Z1+12-");
    assert_eq!(PlusMinusProduct::from_str("0Z1+12-"), Ok(product));
    assert_eq!(
        PlusMinusProduct::from_str("0X"),
        Err(StruqtureError::ParseMismatch)
    );
    let (conjugate, _) = PlusMinusProduct::new().plus(0).z(1).hermitian_conjugate();
    assert_eq!(conjugate, PlusMinusProduct::new().minus(0).z(1));
    assert!(!PlusMinusProduct::new().plus(0).is_natural_hermitian());
    assert!(PlusMinusProduct::new().z(0).is_natural_hermitian());
}
