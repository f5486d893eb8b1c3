//! Tests of the text form of operators and systems, and of the relabelling
//! of products.

use qoqo_calculator::CalculatorComplex;
use std::collections::HashMap;
use struqture::bosons::{
    BosonHamiltonianSystem, BosonLindbladNoiseSystem, BosonLindbladOpenSystem, BosonOperator,
    BosonProduct, BosonSystem, HermitianBosonProduct,
};
use struqture::error::StruqtureError;
use struqture::fermions::FermionProduct;
use struqture::sign::Sign;
use struqture::spins::{
    PauliProduct, PlusMinusLindbladNoiseOperator, PlusMinusProduct, SpinHamiltonian,
    SpinHamiltonianSystem,
};

// Test the text form of BosonSystem
#[test]
fn display() {
    let pp: BosonProduct = BosonProduct::new(&[0], &[0]).unwrap();
    let mut so = BosonSystem::new(Some(1));
    let _ = so.set(pp, CalculatorComplex::from(0.5));

    assert_eq!(so.to_string(), "BosonSystem(1){\nc0a0: (5e-1 + i * 0e0),\n}");
}

/// Test the text form of BosonLindbladOpenSystem
#[test]
fn bosonic_open_system_test_format_repr() {
    let mut rust_system = BosonLindbladOpenSystem::group(
        BosonHamiltonianSystem::new(None),
        BosonLindbladNoiseSystem::new(None),
    )
    .unwrap();
    rust_system
        .system_add_operator_product(
            HermitianBosonProduct::new(&[0], &[0]).unwrap(),
            CalculatorComplex::from(0.1),
        )
        .unwrap();
    let _ = rust_system.noise_add_operator_product(
        (
            BosonProduct::new(&[1], &[1]).unwrap(),
            BosonProduct::new(&[], &[1]).unwrap(),
        ),
        CalculatorComplex::from(0.1),
    );

    let test_string =
        "BosonLindbladOpenSystem(2){\nSystem: {\nc0a0: (1e-1 + i * 0e0),\n}\nNoise: {\n(c1a1, a1): (1e-1 + i * 0e0),\n}\n}"
            .to_string();
    assert_eq!(rust_system.to_string(), test_string);
}

#[test]
fn text_forms_of_operators() {
    let mut operator = BosonOperator::new();
    assert_eq!(operator.to_string(), "BosonOperator{\n}");
    operator
        .set(BosonProduct::new(&[0], &[1]).unwrap(), CalculatorComplex::new(1.0, "a"))
        .unwrap();
    operator
        .set(BosonProduct::new(&[], &[]).unwrap(), CalculatorComplex::from(2.0))
        .unwrap();
    assert_eq!(
        operator.to_string(),
        "BosonOperator{\nc0a1: (1e0 + i * a),\nI: (2e0 + i * 0e0),\n}"
    );

    let mut hamiltonian = SpinHamiltonian::new();
    hamiltonian
        .set(PauliProduct::new().z(0).x(12), CalculatorComplex::from(-1.5))
        .unwrap();
    assert_eq!(
        hamiltonian.to_string(),
        "SpinHamiltonian{\n0Z12X: (-1.5e0 + i * 0e0),\n}"
    );
    let system = SpinHamiltonianSystem::new(None);
    assert_eq!(system.to_string(), "SpinHamiltonianSystem(0){\n}");
    let system = SpinHamiltonianSystem::new(Some(120));
    assert_eq!(system.to_string(), "SpinHamiltonianSystem(120){\n}");

    let mut noise = PlusMinusLindbladNoiseOperator::new();
    noise
        .set(
            (
                PlusMinusProduct::new().plus(0),
                PlusMinusProduct::new().minus(1).z(2),
            ),
            CalculatorComplex::from(1.0),
        )
        .unwrap();
    assert_eq!(
        noise.to_string(),
        "PlusMinusLindbladNoiseOperator{\n(0+, 1-2Z): (1e0 + i * 0e0),\n}"
    );
}

#[test]
fn remap_modes_of_bosons() {
    let product = BosonProduct::new(&[0, 1], &[2]).unwrap();
    let mut mapping = HashMap::new();
    mapping.insert(0, 5);
    mapping.insert(2, 0);
    // 1 is not named and stays
    assert_eq!(
        product.remap_modes(&mapping),
        Ok(BosonProduct::new(&[1, 5], &[0]).unwrap())
    );
    let mut far = HashMap::new();
    far.insert(1, usize::MAX);
    assert_eq!(product.remap_modes(&far), Err(StruqtureError::InvalidIndex));
}

#[test]
fn remap_modes_of_fermions() {
    let product = FermionProduct::new(&[0, 1], &[2]).unwrap();
    let mut mapping = HashMap::new();
    mapping.insert(0, 5);
    // c5 c1 = -c1 c5
    assert_eq!(
        product.remap_modes(&mapping),
        Ok((FermionProduct::new(&[1, 5], &[2]).unwrap(), Sign::Minus))
    );
    let mut swap = HashMap::new();
    swap.insert(0, 1);
    swap.insert(1, 0);
    assert_eq!(
        product.remap_modes(&swap),
        Ok((FermionProduct::new(&[0, 1], &[2]).unwrap(), Sign::Minus))
    );
    // a mapping that is not injective makes the product vanish
    let mut merge = HashMap::new();
    merge.insert(0, 1);
    let (_, sign) = product.remap_modes(&merge).unwrap();
    assert_eq!(sign, Sign::Zero);
    assert_eq!(
        product.remap_modes(&HashMap::new()),
        Ok((product.clone(), Sign::Plus))
    );
}

#[test]
fn remap_qubits_of_spins() {
    let product = PauliProduct::new().x(0).z(1);
    let mut mapping = HashMap::new();
    mapping.insert(0, 3);
    mapping.insert(1, 0);
    assert_eq!(
        product.remap_qubits(&mapping),
        Ok(PauliProduct::new().z(0).x(3))
    );
    // two different operators on one site fit no product
    let mut merge = HashMap::new();
    merge.insert(0, 1);
    assert_eq!(
        product.remap_qubits(&merge),
        Err(StruqtureError::InvalidIndex)
    );
    // the same operator twice on a site is the identity
    let twice = PauliProduct::new().x(0).x(1).z(2);
    assert_eq!(twice.remap_qubits(&merge), Ok(PauliProduct::new().z(2)));
}
