//! Tests of the interface of Hamiltonians of spins.

use qoqo_calculator::{CalculatorComplex, CalculatorFloat};
use struqture::error::StruqtureError;
use struqture::spins::{
    Multiplier, PauliProduct, SpinHamiltonianSystem, SpinHamiltonianSystemWrapper, SpinSystem,
};

#[test]
fn spin_hamiltonian_new() {
    let wrapper = SpinHamiltonianSystemWrapper::new(Some(2));
    assert!(wrapper.internal.is_empty());
    assert_eq!(wrapper.internal.number_modes(), 2);
    let wrapper = SpinHamiltonianSystemWrapper::new(None);
    assert_eq!(wrapper.internal.number_modes(), 0);
}

#[test]
fn spin_hamiltonian_takes_only_real_coefficients() {
    let mut system = SpinHamiltonianSystem::new(Some(2));
    let pp = PauliProduct::new().z(0);
    system
        .add_operator_product(pp.clone(), CalculatorComplex::from(5.0))
        .unwrap();
    assert_eq!(system.get(&pp), CalculatorComplex::from(5.0));
    assert_eq!(
        system.set(pp.clone(), CalculatorComplex::new(1.0, 1.0)),
        Err(StruqtureError::NonHermitianOperator)
    );
    assert_eq!(
        system.add_operator_product(pp.clone(), CalculatorComplex::new(0.0, 1.0)),
        Err(StruqtureError::NonHermitianOperator)
    );
    // nothing changed
    assert_eq!(system.get(&pp), CalculatorComplex::from(5.0));
    assert_eq!(
        system.set(PauliProduct::new().z(2), CalculatorComplex::from(1.0)),
        Err(StruqtureError::CapacityExceeded)
    );
    assert_eq!(system.len(), 1);
}

#[test]
fn spin_hamiltonian_mul_float() {
    let mut wrapper = SpinHamiltonianSystemWrapper::new(Some(2));
    wrapper
        .internal
        .add_operator_product(PauliProduct::new().z(0), CalculatorComplex::from(2.0))
        .unwrap();
    let product = wrapper
        .__mul__(Multiplier::Float(CalculatorFloat::from(3.0)))
        .unwrap();
    let mut expected = SpinSystem::new(Some(2));
    expected
        .add_operator_product(PauliProduct::new().z(0), CalculatorComplex::from(6.0))
        .unwrap();
    assert_eq!(product.internal, expected);
}

#[test]
fn spin_hamiltonian_mul_complex() {
    let mut wrapper = SpinHamiltonianSystemWrapper::new(Some(2));
    wrapper
        .internal
        .add_operator_product(PauliProduct::new().z(0), CalculatorComplex::from(2.0))
        .unwrap();
    let product = wrapper
        .__mul__(Multiplier::Complex(CalculatorComplex::new(0.0, 1.5)))
        .unwrap();
    let mut expected = SpinSystem::new(Some(2));
    expected
        .add_operator_product(PauliProduct::new().z(0), CalculatorComplex::new(0.0, 3.0))
        .unwrap();
    assert_eq!(product.internal, expected);
}

#[test]
fn spin_hamiltonian_mul_system() {
    // (2 Z0 + X1) * (3 X0) = 6 Z0 X0 + 3 X0 X1 = 6i Y0 + 3 X0 X1
    let mut left = SpinHamiltonianSystemWrapper::new(Some(2));
    left.internal
        .add_operator_product(PauliProduct::new().z(0), CalculatorComplex::from(2.0))
        .unwrap();
    left.internal
        .add_operator_product(PauliProduct::new().x(1), CalculatorComplex::from(1.0))
        .unwrap();
    let mut right = SpinHamiltonianSystemWrapper::new(None);
    right
        .internal
        .add_operator_product(PauliProduct::new().x(0), CalculatorComplex::from(3.0))
        .unwrap();
    let product = left.__mul__(Multiplier::System(right)).unwrap();
    let mut expected = SpinSystem::new(Some(2));
    expected
        .add_operator_product(PauliProduct::new().y(0), CalculatorComplex::new(0.0, 6.0))
        .unwrap();
    expected
        .add_operator_product(PauliProduct::new().x(0).x(1), CalculatorComplex::from(3.0))
        .unwrap();
    assert_eq!(product.internal, expected);
}

#[test]
fn spin_hamiltonian_mul_unsupported() {
    let wrapper = SpinHamiltonianSystemWrapper::new(Some(2));
    assert_eq!(
        wrapper.__mul__(Multiplier::Unsupported),
        Err(StruqtureError::UnsupportedOperand)
    );
}
