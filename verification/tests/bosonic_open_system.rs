//! Tests of the public interface of BosonLindbladOpenSystem.

use qoqo_calculator::{CalculatorComplex, CalculatorFloat};
use struqture::bosons::{
    BosonHamiltonianSystem, BosonLindbladNoiseSystem, BosonLindbladOpenSystem, BosonProduct,
    HermitianBosonProduct,
};
use struqture::error::StruqtureError;

// helper functions
fn hbp(text: &str) -> HermitianBosonProduct {
    HermitianBosonProduct::from_str(text).unwrap()
}

fn bp(text: &str) -> BosonProduct {
    BosonProduct::from_str(text).unwrap()
}

fn pair(left: &str, right: &str) -> (BosonProduct, BosonProduct) {
    (bp(left), bp(right))
}

fn cc(value: f64) -> CalculatorComplex {
    CalculatorComplex::from(CalculatorFloat::from(value))
}

/// Test number_modes and current_number_modes functions of BosonLindbladOpenSystem
#[test]
fn test_number_modes_current() {
    let mut system = BosonLindbladOpenSystem::new(None);
    system
        .noise_add_operator_product(pair("c0a0", "c0a0"), cc(0.1))
        .unwrap();

    assert_eq!(system.number_modes(), 1);
    assert_eq!(system.current_number_modes(), 1);
}

/// Test empty_clone function of BosonLindbladOpenSystem
#[test]
fn test_empty_clone() {
    let system = BosonLindbladOpenSystem::new(None);
    let none_system = system.empty_clone(None);
    assert_eq!(none_system, system);

    let system = BosonLindbladOpenSystem::new(None);
    let some_system = system.empty_clone(None);
    assert_eq!(some_system, system);

    let mut system = BosonLindbladOpenSystem::new(Some(3));
    system
        .noise_add_operator_product(pair("c0a0", "c0a0"), cc(0.1))
        .unwrap();
    assert_eq!(system.empty_clone(None), BosonLindbladOpenSystem::new(Some(3)));
    assert_eq!(
        system.empty_clone(Some(5)),
        BosonLindbladOpenSystem::new(Some(5))
    );
}

/// Test system_add_operator_product and get functions of BosonLindbladOpenSystem
#[test]
fn boson_system_test_add_operator_product_remove_system() {
    let mut system = BosonLindbladOpenSystem::new(Some(4));
    system
        .system_add_operator_product(hbp("c0a0"), cc(0.1))
        .unwrap();
    system
        .system_add_operator_product(hbp("c1a2"), cc(0.2))
        .unwrap();
    system
        .system_add_operator_product(hbp("a3"), cc(0.05))
        .unwrap();

    // test access at index 0
    assert_eq!(system.system().get(&hbp("c0a0")), cc(0.1));
    // test access at index 1
    assert_eq!(system.system().get(&hbp("c1a2")), cc(0.2));
    // test access at index 3
    assert_eq!(system.system().get(&hbp("a3")), cc(0.05));

    // Get zero
    assert_eq!(system.system().get(&hbp("a2")), cc(0.0));

    // Get error
    assert!(HermitianBosonProduct::from_str("j2").is_err());

    // Try_set error 1: Key (BosonProduct) cannot be converted from string
    assert_eq!(
        HermitianBosonProduct::from_str("j1"),
        Err(StruqtureError::ParseMismatch)
    );

    // Try_set error 3: Number of bosons in entry exceeds number of bosons in system.
    let error = system.system_add_operator_product(hbp("a5"), cc(0.1));
    assert_eq!(error, Err(StruqtureError::CapacityExceeded));
    assert_eq!(system.system().len(), 3);
}

/// Test noise_add_operator_product and get functions of BosonLindbladOpenSystem
#[test]
fn boson_system_test_add_operator_product_remove_noise() {
    let mut system = BosonLindbladOpenSystem::new(Some(4));
    system
        .noise_add_operator_product(pair("c0a0", "c0a0"), cc(0.1))
        .unwrap();
    system
        .noise_add_operator_product(pair("c0a0", "c1a2"), cc(0.2))
        .unwrap();
    system
        .noise_add_operator_product(pair("c0a0", "a3"), cc(0.05))
        .unwrap();

    // test access at index 0
    assert_eq!(system.noise().get(&pair("c0a0", "c0a0")), cc(0.1));
    // test access at index 1
    assert_eq!(system.noise().get(&pair("c0a0", "c1a2")), cc(0.2));
    // test access at index 3
    assert_eq!(system.noise().get(&pair("c0a0", "a3")), cc(0.05));

    // Get zero
    assert_eq!(system.noise().get(&pair("c0a0", "a2")), cc(0.0));

    // Get error
    assert!(BosonProduct::from_str("j2").is_err());

    // Try_set error 1: Key (BosonProduct) cannot be converted from string
    assert_eq!(BosonProduct::from_str("j1"), Err(StruqtureError::ParseMismatch));

    // Try_set error 3: Number of bosons in entry exceeds number of bosons in system.
    let error = system.noise_add_operator_product(pair("c0a0", "a5"), cc(0.1));
    assert_eq!(error, Err(StruqtureError::CapacityExceeded));
    assert_eq!(system.noise().len(), 3);
}

/// Test negation of BosonLindbladOpenSystem
#[test]
fn test_neg() {
    let mut system_0 = BosonLindbladOpenSystem::new(None);
    system_0
        .noise_add_operator_product(pair("c0a0", "c0a0"), cc(0.1))
        .unwrap();
    let mut system_1 = BosonLindbladOpenSystem::new(None);
    system_1
        .noise_add_operator_product(pair("c0a0", "c0a0"), cc(-0.1))
        .unwrap();

    let negated = system_0.neg();
    assert_eq!(negated, system_1);
}

/// Test addition of BosonLindbladOpenSystem
#[test]
fn test_add() {
    let mut system_0 = BosonLindbladOpenSystem::new(None);
    system_0
        .noise_add_operator_product(pair("c0a0", "c0a0"), cc(0.1))
        .unwrap();
    let mut system_1 = BosonLindbladOpenSystem::new(None);
    system_1
        .noise_add_operator_product(pair("c1a2", "c0a0"), cc(0.2))
        .unwrap();
    let mut system_0_1 = BosonLindbladOpenSystem::new(None);
    system_0_1
        .noise_add_operator_product(pair("c0a0", "c0a0"), cc(0.1))
        .unwrap();
    system_0_1
        .noise_add_operator_product(pair("c1a2", "c0a0"), cc(0.2))
        .unwrap();

    let added = system_0.add(system_1).unwrap();
    assert_eq!(added, system_0_1);
}

/// Test subtraction of BosonLindbladOpenSystem
#[test]
fn test_sub() {
    let mut system_0 = BosonLindbladOpenSystem::new(None);
    system_0
        .noise_add_operator_product(pair("c0a0", "c0a0"), cc(0.1))
        .unwrap();
    let mut system_1 = BosonLindbladOpenSystem::new(None);
    system_1
        .noise_add_operator_product(pair("c1a2", "c0a0"), cc(0.2))
        .unwrap();
    let mut system_0_1 = BosonLindbladOpenSystem::new(None);
    system_0_1
        .noise_add_operator_product(pair("c0a0", "c0a0"), cc(0.1))
        .unwrap();
    system_0_1
        .noise_add_operator_product(pair("c1a2", "c0a0"), cc(-0.2))
        .unwrap();

    let added = system_0.sub(system_1).unwrap();
    assert_eq!(added, system_0_1);
}

/// Test multiplication of BosonLindbladOpenSystem by a real number
#[test]
fn test_mul_cf() {
    let mut system_0 = BosonLindbladOpenSystem::new(None);
    system_0
        .noise_add_operator_product(pair("c0a0", "c0a0"), cc(0.1_f64))
        .unwrap();

    let mut system_0_1 = BosonLindbladOpenSystem::new(None);
    system_0_1
        .noise_add_operator_product(pair("c0a0", "c0a0"), cc(0.2))
        .unwrap();

    let added = system_0.scale_real(&CalculatorFloat::from(2.0));
    assert_eq!(added, system_0_1);
}

/// Test default, equality, clone, the halves, group and ungroup of BosonLindbladOpenSystem
#[test]
fn bosonic_open_system_test_default_partialeq_debug_clone() {
    let mut new_sys = BosonLindbladOpenSystem::new(None);
    new_sys
        .system_add_operator_product(hbp("c0a0"), cc(0.1))
        .unwrap();
    new_sys
        .noise_add_operator_product(pair("c0a0", "c0a0"), cc(0.1))
        .unwrap();

    // PartialEq
    let helper_ne: bool = BosonLindbladOpenSystem::default() != new_sys;
    assert!(helper_ne);
    let helper_eq: bool = BosonLindbladOpenSystem::default() == BosonLindbladOpenSystem::new(None);
    assert!(helper_eq);

    // Clone
    assert_eq!(new_sys.clone(), new_sys);

    // Number of bosons
    assert_eq!(new_sys.number_modes(), 1);

    // Current number of bosons
    assert_eq!(new_sys.current_number_modes(), 1);

    // System
    let mut boson_system = BosonHamiltonianSystem::new(None);
    boson_system
        .add_operator_product(hbp("c0a0"), cc(0.1))
        .unwrap();
    assert_eq!(new_sys.system(), &boson_system);

    // Noise
    let mut noise = BosonLindbladNoiseSystem::new(None);
    noise
        .add_operator_product(pair("c0a0", "c0a0"), cc(0.1))
        .unwrap();
    assert_eq!(new_sys.noise(), &noise);

    // Ungroup + group
    let (system_part, noise_part) = new_sys.clone().ungroup();
    assert_eq!(system_part, boson_system);
    assert_eq!(noise_part, noise);
    let grouped = BosonLindbladOpenSystem::group(boson_system, noise).unwrap();
    assert_eq!(grouped, new_sys);
}

/// Test system_set and get functions of BosonLindbladOpenSystem
#[test]
fn test_set_pauli_get_pauli() {
    let mut system = BosonLindbladOpenSystem::new(None);
    system.system_set(hbp("c0a0"), cc(0.1)).unwrap();
    system.system_set(hbp("c1a2"), cc(0.2)).unwrap();
    system.system_set(hbp("a3"), cc(0.05)).unwrap();

    // test access at index 0
    assert_eq!(system.system().get(&hbp("c0a0")), cc(0.1));
    // test access at index 1
    assert_eq!(system.system().get(&hbp("c1a2")), cc(0.2));
    // test access at index 3
    assert_eq!(system.system().get(&hbp("a3")), cc(0.05));
    // Get zero
    assert_eq!(system.system().get(&hbp("a2")), cc(0.0));

    // Try_set error 1: Key (BosonProduct) cannot be converted from string
    assert!(HermitianBosonProduct::from_str("j1").is_err());
}

/// Test noise_set and get functions of BosonLindbladOpenSystem
#[test]
fn test_set_noise_get_noise() {
    let mut system = BosonLindbladOpenSystem::new(None);
    system.noise_set(pair("c0a0", "c1a2"), cc(0.1)).unwrap();
    system.noise_set(pair("c1a2", "a3"), cc(0.2)).unwrap();
    system.noise_set(pair("c0a0", "c0a0"), cc(0.05)).unwrap();

    // test access at index 0
    assert_eq!(system.noise().get(&pair("c0a0", "c1a2")), cc(0.1));
    // test access at index 1
    assert_eq!(system.noise().get(&pair("c1a2", "a3")), cc(0.2));
    // test access at index 3
    assert_eq!(system.noise().get(&pair("c0a0", "c0a0")), cc(0.05));
    // Get zero
    assert_eq!(system.noise().get(&pair("c2a2", "c2a2")), cc(0.0));

    // Get error 1a: Key left (BosonProduct) cannot be converted from string
    assert!(BosonProduct::from_str("1+c0a1").is_err());
}

/// Test system_set and get functions of BosonLindbladOpenSystem with a declared number of modes
#[test]
fn test_try_set_pauli_get_pauli() {
    let mut system = BosonLindbladOpenSystem::new(Some(4));
    system.system_set(hbp("c0a0"), cc(0.1)).unwrap();
    system.system_set(hbp("c1a2"), cc(0.2)).unwrap();
    system.system_set(hbp("a3"), cc(0.05)).unwrap();

    assert_eq!(system.system().get(&hbp("c0a0")), cc(0.1));
    assert_eq!(system.system().get(&hbp("c1a2")), cc(0.2));
    assert_eq!(system.system().get(&hbp("a3")), cc(0.05));
    assert_eq!(system.system().get(&hbp("a2")), cc(0.0));

    assert!(HermitianBosonProduct::from_str("j1").is_err());
    // a product that is its own adjoint takes no imaginary part
    assert_eq!(
        system.system_set(hbp("c1a1"), CalculatorComplex::new(0.0, 1.0)),
        Err(StruqtureError::NonHermitianOperator)
    );
    assert_eq!(system.system().len(), 3);
    // a product that is not its own adjoint does
    system
        .system_set(hbp("c1a2"), CalculatorComplex::new(0.0, 1.0))
        .unwrap();
}

/// Test noise_set and get functions of BosonLindbladOpenSystem with a declared number of modes
#[test]
fn test_try_set_noise_get_noise() {
    let mut system = BosonLindbladOpenSystem::new(Some(4));
    system.noise_set(pair("c0a0", "c1a2"), cc(0.1)).unwrap();
    system.noise_set(pair("c1a2", "a3"), cc(0.2)).unwrap();
    system.noise_set(pair("c0a0", "c0a0"), cc(0.05)).unwrap();

    assert_eq!(system.noise().get(&pair("c0a0", "c1a2")), cc(0.1));
    assert_eq!(system.noise().get(&pair("c1a2", "a3")), cc(0.2));
    assert_eq!(system.noise().get(&pair("c0a0", "c0a0")), cc(0.05));
    assert_eq!(system.noise().get(&pair("c2a2", "c2a2")), cc(0.0));

    assert!(BosonProduct::from_str("1+c0a1").is_err());
    assert_eq!(
        system.noise_set(pair("c0a0", "c4a4"), cc(0.5)),
        Err(StruqtureError::CapacityExceeded)
    );
}

/// Test system_add_operator_product and get functions of BosonLindbladOpenSystem
#[test]
fn test_add_pauli_get_pauli() {
    let mut system = BosonLindbladOpenSystem::new(None);
    system
        .system_add_operator_product(hbp("c0a0"), cc(0.1))
        .unwrap();
    system
        .system_add_operator_product(hbp("c1a2"), cc(0.2))
        .unwrap();
    system
        .system_add_operator_product(hbp("a3"), cc(0.05))
        .unwrap();

    assert_eq!(system.system().get(&hbp("c0a0")), cc(0.1));
    assert_eq!(system.system().get(&hbp("c1a2")), cc(0.2));
    assert_eq!(system.system().get(&hbp("a3")), cc(0.05));
    assert_eq!(system.system().get(&hbp("a2")), cc(0.0));

    assert!(HermitianBosonProduct::from_str("j2").is_err());
    assert!(HermitianBosonProduct::from_str("j1").is_err());
}

/// Test noise_add_operator_product and get functions of BosonLindbladOpenSystem
#[test]
fn test_add_noise_get_noise() {
    let mut system = BosonLindbladOpenSystem::new(None);
    system
        .noise_add_operator_product(pair("c0a0", "c1a2"), cc(0.1))
        .unwrap();
    system
        .noise_add_operator_product(pair("c1a2", "a3"), cc(0.2))
        .unwrap();
    system
        .noise_add_operator_product(pair("c0a0", "c0a0"), cc(0.05))
        .unwrap();

    assert_eq!(system.noise().get(&pair("c0a0", "c1a2")), cc(0.1));
    assert_eq!(system.noise().get(&pair("c1a2", "a3")), cc(0.2));
    assert_eq!(system.noise().get(&pair("c0a0", "c0a0")), cc(0.05));
    assert_eq!(system.noise().get(&pair("c2a2", "c2a2")), cc(0.0));

    assert!(BosonProduct::from_str("1+c0a1").is_err());
    assert!(BosonProduct::from_str("j1").is_err());
}

fn truncate_case(re: f64, im: f64) {
    let mut system = BosonLindbladOpenSystem::new(None);
    system
        .noise_add_operator_product(
            pair("c0a0", "c0a0"),
            CalculatorComplex::new(100.0 * re, 100.0 * im),
        )
        .unwrap();
    system
        .system_add_operator_product(hbp("a1"), CalculatorFloat::from(10.0 * re).into())
        .unwrap();
    system
        .noise_add_operator_product(pair("c0a0", "c2a2"), CalculatorComplex::new(re, im))
        .unwrap();
    system
        .system_add_operator_product(hbp("c0c1a0a2"), CalculatorFloat::from("test").into())
        .unwrap();

    let mut test_system1 = BosonLindbladOpenSystem::new(None);
    test_system1
        .noise_add_operator_product(
            pair("c0a0", "c0a0"),
            CalculatorComplex::new(100.0 * re, 100.0 * im),
        )
        .unwrap();
    test_system1
        .system_add_operator_product(hbp("a1"), CalculatorFloat::from(10.0 * re).into())
        .unwrap();
    test_system1
        .system_add_operator_product(hbp("c0c1a0a2"), CalculatorFloat::from("test").into())
        .unwrap();

    let mut test_system2 = BosonLindbladOpenSystem::new(None);
    test_system2
        .noise_add_operator_product(
            pair("c0a0", "c0a0"),
            CalculatorComplex::new(100.0 * re, 100.0 * im),
        )
        .unwrap();
    test_system2
        .system_add_operator_product(hbp("c0c1a0a2"), CalculatorFloat::from("test").into())
        .unwrap();

    let comparison_system1 = system.truncate(&CalculatorFloat::from(5.0_f64));
    assert_eq!(comparison_system1, test_system1);

    let comparison_system2 = system.truncate(&CalculatorFloat::from(50.0_f64));
    assert_eq!(comparison_system2, test_system2);
}

/// Test truncate function of BosonLindbladOpenSystem
#[test]
fn test_truncate() {
    truncate_case(1.0, 0.0);
}

#[test]
fn test_truncate_imag() {
    truncate_case(0.0, 1.0);
}

#[test]
fn test_truncate_mixed() {
    truncate_case(0.7, 0.7);
}

/// Test clone of BosonLindbladOpenSystem
#[test]
fn bosonic_open_system_test_copy_deepcopy() {
    let mut system = BosonLindbladOpenSystem::new(None);
    system
        .system_add_operator_product(hbp("c0a0"), cc(0.1))
        .unwrap();
    system
        .noise_add_operator_product(pair("c0a0", "c0a0"), cc(0.1))
        .unwrap();
    let copy_system = system.clone();
    assert_eq!(copy_system, system);
}

/// Test equality of BosonLindbladOpenSystem
#[test]
fn bosonic_open_system_test_richcmp() {
    let mut system_one = BosonLindbladOpenSystem::new(None);
    system_one
        .system_add_operator_product(hbp("c0a0"), cc(0.1))
        .unwrap();
    system_one
        .noise_add_operator_product(pair("c0a0", "c0a0"), cc(0.1))
        .unwrap();
    let mut system_two = BosonLindbladOpenSystem::new(None);
    system_two
        .system_add_operator_product(hbp("c1a1"), cc(0.1))
        .unwrap();
    system_two
        .noise_add_operator_product(pair("c0a0", "c0a0"), cc(0.1))
        .unwrap();
    assert!(system_one != system_two);
    assert!(system_one == system_one.clone());
}

/// Group of halves with different declared numbers of modes
#[test]
fn open_system_group_numbers() {
    let mut hamiltonian = BosonHamiltonianSystem::new(Some(3));
    hamiltonian
        .add_operator_product(hbp("c0a2"), cc(1.0))
        .unwrap();
    let mut noise = BosonLindbladNoiseSystem::new(None);
    noise
        .add_operator_product(pair("c0a0", "c1a1"), cc(1.0))
        .unwrap();
    let grouped = BosonLindbladOpenSystem::group(hamiltonian.clone(), noise).unwrap();
    assert_eq!(grouped.number_modes(), 3);
    assert_eq!(grouped.noise().number_modes(), 3);

    let mut far_noise = BosonLindbladNoiseSystem::new(None);
    far_noise
        .add_operator_product(pair("c0a0", "c5a5"), cc(1.0))
        .unwrap();
    assert_eq!(
        BosonLindbladOpenSystem::group(hamiltonian.clone(), far_noise),
        Err(StruqtureError::CapacityExceeded)
    );
    assert_eq!(
        BosonLindbladOpenSystem::group(hamiltonian, BosonLindbladNoiseSystem::new(Some(4))),
        Err(StruqtureError::CapacityMismatch)
    );
}

/// Truncation of an operator with terms of magnitude 10, 1 and 0.1 at 5
#[test]
fn truncate_keeps_terms_above_threshold() {
    let mut noise = BosonLindbladNoiseSystem::new(None);
    noise
        .add_operator_product(pair("c0a0", "c0a0"), cc(10.0))
        .unwrap();
    noise
        .add_operator_product(pair("c0a0", "c1a1"), cc(1.0))
        .unwrap();
    noise
        .add_operator_product(pair("c1a1", "c1a1"), cc(0.1))
        .unwrap();
    noise
        .add_operator_product(pair("c1a1", "c2a2"), cc(5.0))
        .unwrap();
    let truncated = noise.truncate(&CalculatorFloat::from(5.0));
    let mut expected = BosonLindbladNoiseSystem::new(None);
    expected
        .add_operator_product(pair("c0a0", "c0a0"), cc(10.0))
        .unwrap();
    assert_eq!(truncated, expected);
}

#[test]
fn hermitian_boson_product_pairs() {
    assert_eq!(
        HermitianBosonProduct::new(&[2], &[1]),
        Err(StruqtureError::InvalidIndex)
    );
    assert!(HermitianBosonProduct::new(&[1], &[2]).is_ok());
    assert!(HermitianBosonProduct::new(&[1], &[1, 2]).is_ok());
    assert_eq!(
        HermitianBosonProduct::new(&[1, 2], &[1]),
        Err(StruqtureError::InvalidIndex)
    );
    let (product, value) =
        HermitianBosonProduct::create_valid_pair(&[2], &[1], CalculatorComplex::new(1.0, 2.0))
            .unwrap();
    assert_eq!(product, HermitianBosonProduct::new(&[1], &[2]).unwrap());
    assert_eq!(value, CalculatorComplex::new(1.0, -2.0));
    let (product, value) =
        HermitianBosonProduct::create_valid_pair(&[0], &[1], CalculatorComplex::new(1.0, 2.0))
            .unwrap();
    assert_eq!(product, HermitianBosonProduct::new(&[0], &[1]).unwrap());
    assert_eq!(value, CalculatorComplex::new(1.0, 2.0));
    assert!(HermitianBosonProduct::new(&[0], &[0]).unwrap().is_natural_hermitian());
    assert!(!product.is_natural_hermitian());
}
