//! Tests of fermionic products: canonical order, signs and multiplication.

use qoqo_calculator::CalculatorComplex;
use struqture::error::StruqtureError;
use struqture::fermions::{FermionOperator, FermionProduct, FermionSystem};
use struqture::sign::Sign;

#[test]
fn fermion_create_sorts_with_sign() {
    let (product, sign) = FermionProduct::create(&[2, 0, 1], &[3, 1]).unwrap();
    assert_eq!(product, FermionProduct::new(&[0, 1, 2], &[1, 3]).unwrap());
    // [2, 0, 1] has two inversions, [3, 1] has one
    assert_eq!(sign, Sign::Minus);
    let (product, sign) = FermionProduct::create(&[1, 0], &[3, 1]).unwrap();
    assert_eq!(product, FermionProduct::new(&[0, 1], &[1, 3]).unwrap());
    assert_eq!(sign, Sign::Plus);
}

#[test]
fn fermion_create_swap_flips_sign() {
    let (p_a, s_a) = FermionProduct::create(&[4, 2, 7, 1], &[]).unwrap();
    let (p_b, s_b) = FermionProduct::create(&[1, 2, 7, 4], &[]).unwrap();
    assert_eq!(p_a, p_b);
    assert_eq!(s_a, s_b.negated());
    assert_ne!(s_a, Sign::Zero);
}

#[test]
fn fermion_create_repeated_index_vanishes() {
    let (product, sign) = FermionProduct::create(&[1, 0, 1], &[2]).unwrap();
    assert_eq!(sign, Sign::Zero);
    assert_eq!(product, FermionProduct::new(&[0, 1], &[2]).unwrap());
    let (_, coefficient) =
        FermionProduct::create_valid_pair(&[1, 0, 1], &[2], CalculatorComplex::from(3.0)).unwrap();
    assert_eq!(coefficient, CalculatorComplex::from(0.0));
}

#[test]
fn fermion_create_valid_pair_sign() {
    let (product, coefficient) =
        FermionProduct::create_valid_pair(&[1, 0], &[2], CalculatorComplex::new(1.0, 2.0)).unwrap();
    assert_eq!(product, FermionProduct::new(&[0, 1], &[2]).unwrap());
    assert_eq!(coefficient, CalculatorComplex::new(-1.0, -2.0));
}

#[test]
fn fermion_new_errors() {
    assert_eq!(
        FermionProduct::new(&[1, 0], &[]),
        Err(StruqtureError::InvalidIndex)
    );
    assert_eq!(
        FermionProduct::new(&[1, 1], &[]),
        Err(StruqtureError::DuplicateFermionIndex)
    );
    assert_eq!(
        FermionProduct::new(&[usize::MAX], &[]),
        Err(StruqtureError::InvalidIndex)
    );
    assert!(FermionProduct::new(&[0, 1], &[0, 5]).is_ok());
}

#[test]
fn fermion_text_round_trip() {
    let product = FermionProduct::new(&[0, 11], &[2, 30]).unwrap();
    assert_eq!(product.to_string(), "c0c11a2a30");
    assert_eq!(FermionProduct::from_str("c0c11a2a30"), Ok(product));
    let identity = FermionProduct::new(&[], &[]).unwrap();
    assert_eq!(identity.to_string(), "I");
    assert_eq!(FermionProduct::from_str("I"), Ok(identity));
    assert_eq!(
        FermionProduct::from_str("c0j1"),
        Err(StruqtureError::ParseMismatch)
    );
    assert_eq!(
        FermionProduct::from_str("a0c1"),
        Err(StruqtureError::ParseMismatch)
    );
    assert_eq!(
        FermionProduct::from_str("c1c0"),
        Err(StruqtureError::InvalidIndex)
    );
    assert_eq!(
        FermionProduct::from_str("c1c1"),
        Err(StruqtureError::DuplicateFermionIndex)
    );
    assert_eq!(
        FermionProduct::from_str("c"),
        Err(StruqtureError::ParseMismatch)
    );
}

#[test]
fn fermion_hermitian_conjugate() {
    let product = FermionProduct::new(&[0, 1], &[2]).unwrap();
    let (conjugate, sign) = product.hermitian_conjugate();
    assert_eq!(conjugate, FermionProduct::new(&[2], &[0, 1]).unwrap());
    // reversing two creators costs one exchange
    assert_eq!(sign, Sign::Minus);
    let (back, sign_back) = conjugate.hermitian_conjugate();
    assert_eq!(back, product);
    assert_eq!(sign.times(sign_back), Sign::Plus);
    assert!(!product.is_natural_hermitian());
    assert!(FermionProduct::new(&[0], &[0]).unwrap().is_natural_hermitian());
}

#[test]
fn fermion_multiply_disjoint() {
    // c0 a0 * c1 a1 = - c0 c1 a0 a1
    let left = FermionProduct::new(&[0], &[0]).unwrap();
    let right = FermionProduct::new(&[1], &[1]).unwrap();
    let result = left.multiply(&right);
    assert_eq!(
        result,
        vec![(FermionProduct::new(&[0, 1], &[0, 1]).unwrap(), Sign::Minus)]
    );
}

#[test]
fn fermion_multiply_same_mode() {
    // c0 a0 * c0 a0 = c0 a0: the term c0 c0 a0 a0 vanishes
    let left = FermionProduct::new(&[0], &[0]).unwrap();
    let right = FermionProduct::new(&[0], &[0]).unwrap();
    let result = left.multiply(&right);
    assert_eq!(
        result,
        vec![(FermionProduct::new(&[0], &[0]).unwrap(), Sign::Plus)]
    );
    // a0 * c0 = 1 - c0 a0
    let left = FermionProduct::new(&[], &[0]).unwrap();
    let right = FermionProduct::new(&[0], &[]).unwrap();
    let result = left.multiply(&right);
    assert_eq!(
        result,
        vec![
            (FermionProduct::new(&[0], &[0]).unwrap(), Sign::Minus),
            (FermionProduct::new(&[], &[]).unwrap(), Sign::Plus)
        ]
    );
    // a0 a1 * c1 = a0 (1 - c1 a1) = a0 - a0 c1 a1 = a0 + c1 a0 a1
    let left = FermionProduct::new(&[], &[0, 1]).unwrap();
    let right = FermionProduct::new(&[1], &[]).unwrap();
    let result = left.multiply(&right);
    assert_eq!(
        result,
        vec![
            (FermionProduct::new(&[1], &[0, 1]).unwrap(), Sign::Plus),
            (FermionProduct::new(&[], &[0]).unwrap(), Sign::Plus)
        ]
    );
    // a0 a1 * c0 = (-1) a0 c0 a1 = -(1 - c0 a0) a1 = -a1 + c0 a0 a1
    let left = FermionProduct::new(&[], &[0, 1]).unwrap();
    let right = FermionProduct::new(&[0], &[]).unwrap();
    let result = left.multiply(&right);
    assert_eq!(
        result,
        vec![
            (FermionProduct::new(&[0], &[0, 1]).unwrap(), Sign::Plus),
            (FermionProduct::new(&[], &[1]).unwrap(), Sign::Minus)
        ]
    );
}

#[test]
fn fermion_operator_multiplication() {
    let mut left = FermionOperator::new();
    left.add_operator_product(
        FermionProduct::new(&[0], &[0]).unwrap(),
        CalculatorComplex::from(2.0),
    )
    .unwrap();
    let mut right = FermionOperator::new();
    right
        .add_operator_product(
            FermionProduct::new(&[1], &[1]).unwrap(),
            CalculatorComplex::from(0.5),
        )
        .unwrap();
    let mut expected = FermionOperator::new();
    expected
        .add_operator_product(
            FermionProduct::new(&[0, 1], &[0, 1]).unwrap(),
            CalculatorComplex::from(-1.0),
        )
        .unwrap();
    assert_eq!(left.mul(&right), expected);
}

// An operator with one 1-body and one 2-body term separates into the two
#[test]
fn fermion_separate_into_n_terms() {
    let one_body = FermionProduct::new(&[0], &[1]).unwrap();
    let two_body = FermionProduct::new(&[0, 1], &[2, 3]).unwrap();
    let mut system = FermionSystem::new(None);
    system
        .add_operator_product(one_body.clone(), CalculatorComplex::from(1.0))
        .unwrap();
    system
        .add_operator_product(two_body.clone(), CalculatorComplex::from(2.0))
        .unwrap();
    let (matching, remainder) = system.separate_into_n_terms((1, 1)).unwrap();
    let mut only_one_body = FermionSystem::new(None);
    only_one_body
        .add_operator_product(one_body, CalculatorComplex::from(1.0))
        .unwrap();
    let mut only_two_body = FermionSystem::new(None);
    only_two_body
        .add_operator_product(two_body, CalculatorComplex::from(2.0))
        .unwrap();
    assert_eq!(matching, only_one_body);
    assert_eq!(remainder, only_two_body);
}
