//! Tests of mixed products.

use qoqo_calculator::CalculatorComplex;
use std::cmp::Ordering;
use std::collections::hash_map::DefaultHasher;
use std::hash::{Hash, Hasher};
use struqture::bosons::BosonProduct;
use struqture::encoding::{
    product_from_bincode, product_from_json, product_to_bincode, product_to_json,
};
use struqture::error::StruqtureError;
use struqture::fermions::FermionProduct;
use struqture::mixed_systems::{MixedOperator, MixedProduct, MixedSystem};
use struqture::sign::{Phase, Sign};
use struqture::spins::PauliProduct;

// helper functions
fn new_pp(spin_sub: Vec<&str>, boson_sub: Vec<&str>, fermion_sub: Vec<&str>) -> MixedProduct {
    try_new_pp(spin_sub, boson_sub, fermion_sub).unwrap()
}

fn try_new_pp(
    spin_sub: Vec<&str>,
    boson_sub: Vec<&str>,
    fermion_sub: Vec<&str>,
) -> Result<MixedProduct, StruqtureError> {
    let mut spins = Vec::new();
    for text in spin_sub {
        spins.push(PauliProduct::from_str(text)?);
    }
    let mut bosons = Vec::new();
    for text in boson_sub {
        bosons.push(BosonProduct::from_str(text)?);
    }
    let mut fermions = Vec::new();
    for text in fermion_sub {
        fermions.push(FermionProduct::from_str(text)?);
    }
    MixedProduct::new(spins, bosons, fermions)
}

fn hash_of(product: &MixedProduct) -> u64 {
    let mut hasher = DefaultHasher::new();
    product.hash(&mut hasher);
    hasher.finish()
}

/// Test equality, order and clone of MixedProduct
#[test]
fn mixed_product_test_default_partialeq_debug_clone() {
    let pp = new_pp(vec!["0Z"], vec!["c0a1"], vec!["c0a0"]);

    // PartialEq
    let empty = MixedProduct::new(vec![], vec![], vec![]).unwrap();
    assert!(empty != pp);
    assert!(empty == new_pp(vec![], vec![], vec![]));

    // Test PartialOrd trait
    let pp_0 = new_pp(vec!["0Z"], vec!["c0a1"], vec!["c0a0"]);
    let pp_1 = new_pp(vec!["0X"], vec!["c0a1"], vec!["c0a0"]);

    assert_eq!(pp_0.partial_cmp(&pp), Some(Ordering::Equal));
    assert_eq!(pp.partial_cmp(&pp_0), Some(Ordering::Equal));
    assert_eq!(pp_1.partial_cmp(&pp), Some(Ordering::Less));
    assert_eq!(pp.partial_cmp(&pp_1), Some(Ordering::Greater));

    assert_eq!(pp_0.cmp(&pp), Ordering::Equal);
    assert_eq!(pp.cmp(&pp_0), Ordering::Equal);
    assert_eq!(pp_1.cmp(&pp), Ordering::Less);
    assert_eq!(pp.cmp(&pp_1), Ordering::Greater);

    // Clone
    assert_eq!(pp.clone(), pp);
}

/// Test new function of MixedProduct
#[test]
fn test_new_no_error() {
    let pp = try_new_pp(vec!["0Z"], vec!["c0a1"], vec!["c0a0"]);
    assert!(pp.is_ok());
}

/// Test new function of MixedProduct with texts that name no products
#[test]
fn test_new_errors() {
    let valid = try_new_pp(vec!["0J"], vec!["c0a1"], vec!["c0a0"]);
    assert!(valid.is_err());

    let valid = try_new_pp(vec!["0X"], vec!["c0j1"], vec!["c0a0"]);
    assert!(valid.is_err());

    let valid = try_new_pp(vec!["0X"], vec!["c0a1"], vec!["c0j0"]);
    assert!(valid.is_err());
}

/// Test from_str function of MixedProduct
#[test]
fn test_from_string() {
    let pp = new_pp(vec!["0Z"], vec!["c0a1"], vec!["c0a0"]);

    let string_pp = MixedProduct::from_str(":S0Z:Bc0a1:Fc0a0:").unwrap();
    assert_eq!(string_pp, pp);

    assert_eq!(string_pp.current_number_spins(), vec![1_usize]);
    assert_eq!(string_pp.current_number_bosonic_modes(), vec![2_usize]);
    assert_eq!(string_pp.current_number_fermionic_modes(), vec![1_usize]);

    assert_eq!(string_pp.spins(), &vec![PauliProduct::new().z(0)]);
    assert_eq!(
        string_pp.bosons(),
        &vec![BosonProduct::new(&[0], &[1]).unwrap()]
    );
    assert_eq!(
        string_pp.fermions(),
        &vec![FermionProduct::new(&[0], &[0]).unwrap()]
    );

    // without the colon in front, and in another order of the kinds
    assert_eq!(MixedProduct::from_str("S0Z:Bc0a1:Fc0a0:").unwrap(), pp);
    assert_eq!(MixedProduct::from_str("Fc0a0:S0Z:Bc0a1").unwrap(), pp);
    assert_eq!(
        MixedProduct::from_str("").unwrap(),
        new_pp(vec![], vec![], vec![])
    );
    assert_eq!(
        MixedProduct::from_str("SI:S1X:").unwrap(),
        new_pp(vec!["I", "1X"], vec![], vec![])
    );
}

/// Test from_str function of MixedProduct with a text that names no product
#[test]
fn test_from_string_error() {
    let error_pp = MixedProduct::from_str("0X1Z3J");
    assert_eq!(error_pp, Err(StruqtureError::ParseMismatch));
    assert_eq!(
        MixedProduct::from_str("S0J:"),
        Err(StruqtureError::ParseMismatch)
    );
    assert_eq!(
        MixedProduct::from_str("S0Z:Fc1c0:"),
        Err(StruqtureError::ParseMismatch)
    );
}

/// Test hermitian_conjugate and is_natural_hermitian functions of MixedProduct
#[test]
fn test_hermitian_conj() {
    let pp = new_pp(vec!["0Z"], vec!["c0a1"], vec!["c0a0"]);
    let conjugated_pp = new_pp(vec!["0Z"], vec!["c1a0"], vec!["c0a0"]);

    let hermitian_conjugate_pp = pp.hermitian_conjugate();
    assert_eq!(hermitian_conjugate_pp, (conjugated_pp, Sign::Plus));

    assert!(!pp.is_natural_hermitian());
    assert!(new_pp(vec!["0Z"], vec!["c1a1"], vec!["c0a0"]).is_natural_hermitian());

    // the adjoint of c0 c1 a2 is -c2 a0 a1
    let pp = new_pp(vec![], vec![], vec!["c0c1a2"]);
    assert_eq!(
        pp.hermitian_conjugate(),
        (new_pp(vec![], vec![], vec!["c2a0a1"]), Sign::Minus)
    );
}

/// Test create_valid_pair function of MixedProduct
#[test]
fn test_create_valid_pair() {
    let pp = new_pp(vec!["0Z"], vec!["c0a1"], vec!["c0a0"]);

    let valid = MixedProduct::create_valid_pair(
        vec![PauliProduct::from_str("0Z").unwrap()],
        vec![BosonProduct::from_str("c0a1").unwrap()],
        vec![FermionProduct::from_str("c0a0").unwrap()],
        CalculatorComplex::new(1.0, 2.0),
    )
    .unwrap();
    assert_eq!(valid, (pp, CalculatorComplex::new(1.0, 2.0)));
}

/// Test create_valid_pair function of MixedProduct with texts that name no products
#[test]
fn test_create_valid_pair_errors() {
    assert!(PauliProduct::from_str("0J").is_err());
    assert!(BosonProduct::from_str("c0j1").is_err());
    assert!(FermionProduct::from_str("c0j0").is_err());
}

/// Test multiply function of MixedProduct
#[test]
fn test_multiply() {
    let pp_0 = new_pp(vec!["0Z"], vec!["c0a1"], vec!["c0a0"]);
    let pp_1 = new_pp(vec!["1X"], vec!["c2a3"], vec!["c1a1"]);
    let pp_mul_1 = new_pp(vec!["0Z1X"], vec!["c0c2a1a3"], vec!["c0c1a0a1"]);

    let multiplied = pp_0.multiply(&pp_1).unwrap();
    assert_eq!(multiplied, vec![(pp_mul_1, Phase::MinusOne)]);

    let pp_error = new_pp(vec!["1X", "2Z"], vec!["c2a3"], vec![]);
    let multiplied = pp_0.multiply(&pp_error);
    assert_eq!(multiplied, Err(StruqtureError::MismatchedSubsystems));
}

/// Test multiply function of MixedProduct where the factors share sites and modes
#[test]
fn mixed_multiply_with_several_terms() {
    // spins: Z0 * X0 = i Y0; bosons: c0 a0 * c0 a0 = c0 c0 a0 a0 + c0 a0;
    // fermions: a0 * c0 = -c0 a0 + 1
    let left = new_pp(vec!["0Z"], vec!["c0a0"], vec!["a0"]);
    let right = new_pp(vec!["0X"], vec!["c0a0"], vec!["c0"]);
    let multiplied = left.multiply(&right).unwrap();
    assert_eq!(
        multiplied,
        vec![
            (
                new_pp(vec!["0Y"], vec!["c0c0a0a0"], vec!["c0a0"]),
                Phase::MinusI
            ),
            (new_pp(vec!["0Y"], vec!["c0c0a0a0"], vec!["I"]), Phase::I),
            (new_pp(vec!["0Y"], vec!["c0a0"], vec!["c0a0"]), Phase::MinusI),
            (new_pp(vec!["0Y"], vec!["c0a0"], vec!["I"]), Phase::I),
        ]
    );
}

/// Test clone of MixedProduct
#[test]
fn mixed_product_test_copy_deepcopy() {
    let pp = new_pp(vec!["0Z"], vec!["c0a1"], vec!["c0a0"]);
    let copy_pp = pp.clone();
    assert_eq!(copy_pp, pp);
}

/// Test the text of MixedProduct
#[test]
fn mixed_product_test_format_repr() {
    let pp = new_pp(vec!["0Z"], vec!["c0a1"], vec!["c0a0"]);
    let format_repr = "S0Z:Bc0a1:Fc0a0:";
    assert_eq!(pp.to_string(), format_repr);
    assert_eq!(MixedProduct::from_str(&pp.to_string()).unwrap(), pp);
    assert_eq!(new_pp(vec![], vec![], vec![]).to_string(), "");
    assert_eq!(
        new_pp(vec!["I", "1X"], vec!["I"], vec![]).to_string(),
        "SI:S1X:BI:"
    );
}

/// Test equality of MixedProduct
#[test]
fn mixed_product_test_richcmp() {
    let pp_one = new_pp(vec!["0Z"], vec!["c0a1"], vec!["c0a0"]);
    let pp_two = new_pp(vec!["1Z"], vec!["c0a1"], vec!["c0a0"]);

    assert!(pp_one != pp_two);
    assert!(pp_one == MixedProduct::from_str("S0Z:Bc0a1:Fc0a0:").unwrap());
}

/// Test hash functions of MixedProduct
#[test]
fn test_hash() {
    let pp = new_pp(vec!["0Z"], vec!["c0a1"], vec!["c0a0"]);
    let pp_other = new_pp(vec!["1Z"], vec!["c0a1"], vec!["c0a0"]);

    assert_eq!(hash_of(&pp), hash_of(&pp.clone()));
    assert_ne!(hash_of(&pp), hash_of(&pp_other));
}

/// Test operators and systems of mixed products
#[test]
fn mixed_operators() {
    let first = new_pp(vec!["0Z"], vec!["c0a1"], vec!["c0a0"]);
    let second = new_pp(vec!["1X"], vec!["c2"], vec!["c1a1"]);
    let mut operator = MixedOperator::new();
    operator
        .add_operator_product(first.clone(), CalculatorComplex::from(1.0))
        .unwrap();
    operator
        .add_operator_product(second.clone(), CalculatorComplex::new(0.0, 2.0))
        .unwrap();
    operator
        .add_operator_product(first.clone(), CalculatorComplex::from(0.5))
        .unwrap();
    assert_eq!(operator.len(), 2);
    assert_eq!(operator.get(&first), CalculatorComplex::from(1.5));
    assert_eq!(
        operator.to_string(),
        "MixedOperator{\nS0Z:Bc0a1:Fc0a0:: (1.5e0 + i * 0e0),\nS1X:Bc2:Fc1a1:: (0e0 + i * 2e0),\n}"
    );
    // the adjoint of c0a1 is c1a0, the adjoint of c2 is a2
    let adjoint = operator.hermitian_conjugate();
    assert_eq!(
        adjoint.get(&new_pp(vec!["0Z"], vec!["c1a0"], vec!["c0a0"])),
        CalculatorComplex::from(1.5)
    );
    assert_eq!(
        adjoint.get(&new_pp(vec!["1X"], vec!["a2"], vec!["c1a1"])),
        CalculatorComplex::new(0.0, -2.0)
    );
    let (one, others) = operator
        .separate_into_n_terms((vec![1], vec![(1, 1)], vec![(1, 1)]))
        .unwrap();
    assert_eq!(one.len(), 1);
    assert_eq!(others.len(), 1);
    assert_eq!(one.get(&first), CalculatorComplex::from(1.5));

    let mut system = MixedSystem::new(Some(2));
    system
        .add_operator_product(first, CalculatorComplex::from(1.0))
        .unwrap();
    assert_eq!(
        system.add_operator_product(second, CalculatorComplex::from(1.0)),
        Err(StruqtureError::CapacityExceeded)
    );
    assert_eq!(system.current_number_modes(), 2);
}

/// Test to_bincode and from_bincode functions of MixedProduct
#[test]
fn mixed_product_test_to_from_bincode() {
    let pp = new_pp(vec!["0Z"], vec!["c0a1"], vec!["c0a0"]);

    let serialised = pp.to_bincode().unwrap();
    let deserialised = MixedProduct::from_bincode(&serialised).unwrap();

    let deserialised_error = MixedProduct::from_bincode(&bincode::serialize("fails").unwrap());
    assert_eq!(deserialised_error, Err(StruqtureError::DecodeError));

    let deserialised_error = MixedProduct::from_bincode(&bincode::serialize(&vec![0]).unwrap());
    assert_eq!(deserialised_error, Err(StruqtureError::DecodeError));

    let deserialised_error = MixedProduct::from_bincode(&[]);
    assert_eq!(deserialised_error, Err(StruqtureError::DecodeError));

    assert_eq!(deserialised, pp);
    // the binary form is the binary form of the text
    assert_eq!(
        serialised,
        bincode::serialize("S0Z:Bc0a1:Fc0a0:").unwrap()
    );
}

#[test]
fn mixed_product_test_value_error_bincode() {
    let deserialised_error = MixedProduct::from_bincode("J".as_bytes());
    assert_eq!(deserialised_error, Err(StruqtureError::DecodeError));
}

/// Test to_ and from_json functions of MixedProduct
#[test]
fn mixed_product_test_to_from_json() {
    let pp = new_pp(vec!["0Z"], vec!["c0a1"], vec!["c0a0"]);

    let serialised = pp.to_json().unwrap();
    assert_eq!(serialised, "\"S0Z:Bc0a1:Fc0a0:\"");
    let deserialised = MixedProduct::from_json(&serialised).unwrap();

    let deserialised_error = MixedProduct::from_json("fails");
    assert_eq!(deserialised_error, Err(StruqtureError::DecodeError));

    let deserialised_error = MixedProduct::from_json("0");
    assert_eq!(deserialised_error, Err(StruqtureError::DecodeError));

    let deserialised_error = MixedProduct::from_json("\"fails\"");
    assert_eq!(deserialised_error, Err(StruqtureError::DecodeError));

    assert_eq!(deserialised, pp);
}

/// Test the binary and JSON forms of the other kinds of products
#[test]
fn products_to_from_bincode_and_json() {
    let pauli = PauliProduct::from_str("0X3Z").unwrap();
    assert_eq!(product_to_json(&pauli).unwrap(), "\"0X3Z\"");
    assert_eq!(product_from_json::<PauliProduct>("\"0X3Z\""), Ok(pauli.clone()));
    let bytes = product_to_bincode(&pauli).unwrap();
    assert_eq!(product_from_bincode::<PauliProduct>(&bytes), Ok(pauli));

    let fermion = FermionProduct::from_str("c0c2a1").unwrap();
    let bytes = product_to_bincode(&fermion).unwrap();
    assert_eq!(bytes, bincode::serialize("c0c2a1").unwrap());
    assert_eq!(product_from_bincode::<FermionProduct>(&bytes), Ok(fermion));
    // the text of a fermionic product names no Pauli product
    assert_eq!(
        product_from_bincode::<PauliProduct>(&bytes),
        Err(StruqtureError::DecodeError)
    );

    let boson = BosonProduct::from_str("c1a1a1").unwrap();
    let json = product_to_json(&boson).unwrap();
    assert_eq!(json, "\"c1a1a1\"");
    assert_eq!(product_from_json::<BosonProduct>(&json), Ok(boson));
    assert_eq!(
        product_from_json::<BosonProduct>("[\"c1a1a1\"]"),
        Err(StruqtureError::DecodeError)
    );
}
