//! Tests of the laws of the algebra on chosen operators.

use qoqo_calculator::CalculatorComplex;
use struqture::bosons::{BosonOperator, BosonProduct, BosonSystem, HermitianBosonProduct};
use struqture::error::StruqtureError;
use struqture::fermions::{FermionOperator, FermionProduct};
use struqture::sign::{Phase, Sign};
use struqture::spins::{
    DecoherenceProduct, PauliProduct, PlusMinusProduct, SpinOperator,
};

fn bosons(terms: &[(&[usize], &[usize], f64, f64)]) -> BosonOperator {
    let mut operator = BosonOperator::new();
    for (creators, annihilators, re, im) in terms.iter() {
        operator
            .add_operator_product(
                BosonProduct::new(creators, annihilators).unwrap(),
                CalculatorComplex::new(*re, *im),
            )
            .unwrap();
    }
    operator
}

fn fermions(terms: &[(&[usize], &[usize], f64, f64)]) -> FermionOperator {
    let mut operator = FermionOperator::new();
    for (creators, annihilators, re, im) in terms.iter() {
        operator
            .add_operator_product(
                FermionProduct::new(creators, annihilators).unwrap(),
                CalculatorComplex::new(*re, *im),
            )
            .unwrap();
    }
    operator
}

fn spins(terms: &[(PauliProduct, f64, f64)]) -> SpinOperator {
    let mut operator = SpinOperator::new();
    for (product, re, im) in terms.iter() {
        operator
            .add_operator_product(product.clone(), CalculatorComplex::new(*re, *im))
            .unwrap();
    }
    operator
}

#[test]
fn sum_commutes() {
    let a = bosons(&[(&[0], &[0], 1.0, 0.0), (&[0], &[1], 0.5, 2.0)]);
    let b = bosons(&[(&[0], &[1], 0.25, 0.0), (&[2], &[], 4.0, -1.0)]);
    assert_eq!(a.clone().add(b.clone()), b.add(a));
}

#[test]
fn sum_associates() {
    let a = bosons(&[(&[0], &[0], 1.0, 0.0), (&[0], &[1], 0.5, 2.0)]);
    let b = bosons(&[(&[0], &[1], 0.25, 0.0), (&[2], &[], 4.0, -1.0)]);
    let c = bosons(&[(&[0], &[0], -1.0, 0.0), (&[2], &[], 2.0, 0.0)]);
    assert_eq!(
        a.clone().add(b.clone()).add(c.clone()),
        a.add(b.add(c))
    );
}

#[test]
fn sum_with_negative_is_empty() {
    let a = bosons(&[(&[0], &[0], 1.0, 0.0), (&[0], &[1], 0.5, 2.0)]);
    assert!(a.clone().add(a.neg()).is_empty());
    assert!(a.clone().sub(a.clone()).is_empty());
    assert_eq!(a.clone().add(BosonOperator::new()), a);
}

#[test]
fn product_associates() {
    let a = spins(&[
        (PauliProduct::new().x(0), 1.0, 0.0),
        (PauliProduct::new().z(0).y(1), 0.5, 0.0),
    ]);
    let b = spins(&[
        (PauliProduct::new().y(0), 2.0, 0.0),
        (PauliProduct::new().x(1), 0.0, 1.0),
    ]);
    let c = spins(&[
        (PauliProduct::new().z(0).z(1), 1.0, 0.0),
        (PauliProduct::new(), 4.0, 0.0),
    ]);
    assert_eq!(a.mul(&b).mul(&c), a.mul(&b.mul(&c)));

    let a = fermions(&[(&[0], &[1], 1.0, 0.0), (&[], &[0], 2.0, 0.0)]);
    let b = fermions(&[(&[1], &[0], 1.0, 0.0), (&[0], &[], 1.0, 0.0)]);
    let c = fermions(&[(&[0], &[0], 1.0, 0.0), (&[1], &[], 2.0, 0.0)]);
    assert_eq!(a.mul(&b).mul(&c), a.mul(&b.mul(&c)));

    let a = bosons(&[(&[0], &[0], 1.0, 0.0), (&[], &[0], 2.0, 0.0)]);
    let b = bosons(&[(&[0], &[], 1.0, 0.0), (&[0], &[1], 1.0, 0.0)]);
    let c = bosons(&[(&[0, 0], &[], 1.0, 0.0), (&[1], &[0], 2.0, 0.0)]);
    assert_eq!(a.mul(&b).mul(&c), a.mul(&b.mul(&c)));
}

#[test]
fn pauli_products_associate() {
    let a = PauliProduct::new().x(0).y(1).z(3);
    let b = PauliProduct::new().y(0).y(1).x(2);
    let c = PauliProduct::new().z(0).x(1).x(2).z(3);
    let (ab, phase_ab) = PauliProduct::multiply(&a, &b);
    let (ab_c, phase_ab_c) = PauliProduct::multiply(&ab, &c);
    let (bc, phase_bc) = PauliProduct::multiply(&b, &c);
    let (a_bc, phase_a_bc) = PauliProduct::multiply(&a, &bc);
    assert_eq!(ab_c, a_bc);
    assert_eq!(phase_ab.times(phase_ab_c), phase_bc.times(phase_a_bc));
    assert_eq!(Phase::I.times(Phase::I), Phase::MinusOne);
    assert_eq!(Phase::MinusI.conjugate(), Phase::I);
}

#[test]
fn adjoint_of_adjoint() {
    let boson = BosonProduct::new(&[0, 0, 2], &[1]).unwrap();
    let (once, first) = boson.hermitian_conjugate();
    let (twice, second) = once.hermitian_conjugate();
    assert_eq!((twice, first.times(second)), (boson, Sign::Plus));

    let fermion = FermionProduct::new(&[0, 1, 4], &[2, 3]).unwrap();
    let (once, first) = fermion.hermitian_conjugate();
    let (twice, second) = once.hermitian_conjugate();
    assert_eq!(once, FermionProduct::new(&[2, 3], &[0, 1, 4]).unwrap());
    assert_eq!((twice, first.times(second)), (fermion, Sign::Plus));

    let pauli = PauliProduct::new().x(0).y(2);
    let (once, first) = pauli.hermitian_conjugate();
    let (twice, second) = once.hermitian_conjugate();
    assert_eq!((twice, first.times(second)), (pauli, Sign::Plus));

    let plus_minus = PlusMinusProduct::new().plus(0).minus(2).z(3);
    let (once, first) = plus_minus.hermitian_conjugate();
    let (twice, second) = once.hermitian_conjugate();
    assert_eq!((twice, first.times(second)), (plus_minus, Sign::Plus));

    // iY is minus its own adjoint
    let decoherence = DecoherenceProduct::new().x(0).iy(1);
    let (once, first) = decoherence.hermitian_conjugate();
    assert_eq!(first, Sign::Minus);
    let (twice, second) = once.hermitian_conjugate();
    assert_eq!((twice, first.times(second)), (decoherence, Sign::Plus));

    let hermitian = HermitianBosonProduct::new(&[0], &[1]).unwrap();
    assert_eq!(hermitian.hermitian_conjugate(), (hermitian.clone(), Sign::Plus));
}

#[test]
fn adjoint_of_operators() {
    // (i c0 a1 + 2 c0 c1 a2)^+ = -i c1 a0 - 2 c2 a0 a1
    let operator = fermions(&[(&[0], &[1], 0.0, 1.0), (&[0, 1], &[2], 2.0, 0.0)]);
    assert_eq!(
        operator.hermitian_conjugate(),
        fermions(&[(&[1], &[0], 0.0, -1.0), (&[2], &[0, 1], -2.0, 0.0)])
    );
    assert_eq!(operator.hermitian_conjugate().hermitian_conjugate(), operator);
    let operator = bosons(&[(&[0], &[1], 1.0, 1.0)]);
    assert_eq!(
        operator.hermitian_conjugate(),
        bosons(&[(&[1], &[0], 1.0, -1.0)])
    );
}

// A system for two modes takes a term on modes 0 and 1, and does not take one on mode 2
#[test]
fn boson_system_capacity() {
    let mut system = BosonSystem::new(Some(2));
    assert_eq!(
        system.add_operator_product(
            BosonProduct::new(&[0], &[1]).unwrap(),
            CalculatorComplex::from(1.0)
        ),
        Ok(())
    );
    let before = system.clone();
    assert_eq!(
        system.add_operator_product(
            BosonProduct::new(&[0], &[2]).unwrap(),
            CalculatorComplex::from(1.0)
        ),
        Err(StruqtureError::CapacityExceeded)
    );
    assert_eq!(system, before);
    assert_eq!(
        system.set(
            BosonProduct::new(&[2], &[]).unwrap(),
            CalculatorComplex::from(1.0)
        ),
        Err(StruqtureError::CapacityExceeded)
    );
    assert_eq!(system, before);
    assert_eq!(system.len(), 1);
    assert_eq!(
        system.clone().add(BosonSystem::new(Some(3))),
        Err(StruqtureError::CapacityMismatch)
    );
}

#[test]
fn canonical_form_is_idempotent() {
    let (product, sign) = FermionProduct::create(&[3, 1, 2], &[5, 0]).unwrap();
    let text = product.to_string();
    assert_eq!(text, "c1c2c3a0a5");
    let read = FermionProduct::from_str(&text).unwrap();
    let (again, sign_again) =
        FermionProduct::create(read.creators(), read.annihilators()).unwrap();
    assert_eq!(again, product);
    assert_eq!(sign.times(sign_again), sign);
    assert_eq!(again.to_string(), text);

    let product = BosonProduct::new(&[3, 1, 1], &[5, 0]).unwrap();
    let text = product.to_string();
    assert_eq!(text, "c1c1c3a0a5");
    assert_eq!(BosonProduct::from_str(&text).unwrap(), product);
    assert_eq!(BosonProduct::from_str("c3c1c1a5a0").unwrap(), product);
    assert_eq!(BosonProduct::from_str("c01").unwrap().to_string(), "c1");
}
