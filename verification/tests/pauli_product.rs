//! Tests of Pauli products.

use struqture::error::StruqtureError;
use struqture::sign::{Phase, Sign};
use struqture::spins::SingleSpinOperator::{Identity, X, Y, Z};
use struqture::spins::{PauliProduct, SingleSpinOperator};

// X * Z = -i Y, and Z * X = i Y
#[test]
fn pauli_product_algebra() {
    let z = PauliProduct::new().z(0);
    let x = PauliProduct::new().x(0);
    let y = PauliProduct::new().y(0);
    assert_eq!(PauliProduct::multiply(&x, &z), (y.clone(), Phase::MinusI));
    assert_eq!(PauliProduct::multiply(&z, &x), (y, Phase::I));
}

#[test]
fn pauli_multiply_table() {
    assert_eq!(X.multiply(Y), (Z, Phase::I));
    assert_eq!(Y.multiply(Z), (X, Phase::I));
    assert_eq!(Z.multiply(X), (Y, Phase::I));
    assert_eq!(Y.multiply(X), (Z, Phase::MinusI));
    assert_eq!(Z.multiply(Y), (X, Phase::MinusI));
    assert_eq!(X.multiply(Z), (Y, Phase::MinusI));
    assert_eq!(X.multiply(X), (Identity, Phase::One));
    assert_eq!(Identity.multiply(Z), (Z, Phase::One));
    assert_eq!(Y.multiply(Identity), (Y, Phase::One));
}

#[test]
fn pauli_multiply_several_sites() {
    let left = PauliProduct::new().x(0).z(2).y(5);
    let right = PauliProduct::new().y(0).x(1).z(2).y(7);
    // site 0: X*Y = iZ, site 2: Z*Z = I, sites 1, 5, 7 carried over
    let expected = PauliProduct::new().z(0).x(1).y(5).y(7);
    assert_eq!(PauliProduct::multiply(&left, &right), (expected, Phase::I));
    let left = PauliProduct::new().x(0).x(1);
    let right = PauliProduct::new().y(0).y(1);
    // i * i = -1
    assert_eq!(
        PauliProduct::multiply(&left, &right),
        (PauliProduct::new().z(0).z(1), Phase::MinusOne)
    );
}

#[test]
fn pauli_builder_and_get() {
    let product = PauliProduct::new().z(3).x(1).y(2);
    assert_eq!(product.len(), 3);
    assert_eq!(product.item(0), (1, SingleSpinOperator::X));
    assert_eq!(product.item(1), (2, SingleSpinOperator::Y));
    assert_eq!(product.item(2), (3, SingleSpinOperator::Z));
    assert_eq!(product.get(2), Some(SingleSpinOperator::Y));
    assert_eq!(product.get(0), None);
    assert_eq!(product.current_number_spins(), 4);
    let replaced = product.clone().set_pauli(2, SingleSpinOperator::Z);
    assert_eq!(replaced.get(2), Some(SingleSpinOperator::Z));
    let removed = product.set_pauli(2, SingleSpinOperator::Identity);
    assert_eq!(removed, PauliProduct::new().x(1).z(3));
    assert!(PauliProduct::new().is_empty());
    assert_eq!(PauliProduct::new().current_number_spins(), 0);
}

#[test]
fn pauli_create() {
    assert_eq!(
        PauliProduct::create(&[(2, Z), (0, X), (4, Identity)]),
        Ok(PauliProduct::new().x(0).z(2))
    );
    // the same operator twice on a site is the identity there
    assert_eq!(
        PauliProduct::create(&[(2, Z), (0, X), (2, Z)]),
        Ok(PauliProduct::new().x(0))
    );
    // two different operators on a site fit no product
    assert_eq!(
        PauliProduct::create(&[(2, Z), (2, X)]),
        Err(StruqtureError::InvalidIndex)
    );
    assert_eq!(
        PauliProduct::create(&[(usize::MAX, Z)]),
        Err(StruqtureError::InvalidIndex)
    );
}

#[test]
fn pauli_text_round_trip() {
    let product = PauliProduct::new().z(0).x(10);
    assert_eq!(product.to_string(), "0Z10X");
    assert_eq!(PauliProduct::from_str("0Z10X"), Ok(product.clone()));
    assert_eq!(PauliProduct::from_str(&product.to_string()), Ok(product));
    assert_eq!(PauliProduct::new().to_string(), "I");
    assert_eq!(PauliProduct::from_str("I"), Ok(PauliProduct::new()));
    assert_eq!(
        PauliProduct::from_str("0X1Z3J"),
        Err(StruqtureError::ParseMismatch)
    );
    assert_eq!(
        PauliProduct::from_str("0J"),
        Err(StruqtureError::ParseMismatch)
    );
    assert_eq!(
        PauliProduct::from_str("X0"),
        Err(StruqtureError::ParseMismatch)
    );
    assert_eq!(
        PauliProduct::from_str("0X0Z"),
        Err(StruqtureError::InvalidIndex)
    );
    assert_eq!(
        PauliProduct::from_str("99999999999999999999999999X"),
        Err(StruqtureError::ParseMismatch)
    );
}

#[test]
fn pauli_hermitian_conjugate() {
    let product = PauliProduct::new().z(0).x(1);
    assert_eq!(product.hermitian_conjugate(), (product.clone(), Sign::Plus));
    assert!(product.is_natural_hermitian());
}
