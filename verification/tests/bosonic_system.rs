//! Tests of the public interface of BosonSystem.

use qoqo_calculator::{CalculatorComplex, CalculatorFloat};
use std::collections::BTreeMap;
use struqture::bosons::{BosonOperator, BosonProduct, BosonSystem};
use struqture::error::StruqtureError;

// Test the new function of the BosonSystem
#[test]
fn new_system() {
    let system = BosonSystem::new(Some(1));
    assert!(system.is_empty());
    assert_eq!(system.operator(), &BosonOperator::default());
    assert_eq!(system.number_modes(), 1_usize)
}

// Test the new function of the BosonSystem with no modes specified
#[test]
fn new_system_none() {
    let system = BosonSystem::new(None);
    assert!(system.operator().is_empty());
    assert_eq!(system.operator(), &BosonOperator::default());
    assert_eq!(system.number_modes(), 0_usize);
    assert_eq!(BosonSystem::new(None), BosonSystem::default());
}

#[test]
fn empty_clone_options() {
    let pp_2: BosonProduct = BosonProduct::new(&[0], &[2]).unwrap();
    let mut system = BosonSystem::new(Some(3));
    system.set(pp_2, CalculatorComplex::from(0.5)).unwrap();

    let empty: Option<usize> = None;
    let full: Option<usize> = Some(3);
    assert_eq!(system.empty_clone(empty), BosonSystem::new(Some(3)));
    assert_eq!(
        system.empty_clone(full),
        BosonSystem::with_capacity(Some(3), 1)
    );
}

// Test the from_operator and operator functions of the BosonSystem with number_modes = None
#[test]
fn from_boson_operator_none() {
    let mut so: BosonOperator = BosonOperator::new();
    let mut system = BosonSystem::new(None);
    let pp: BosonProduct = BosonProduct::new(&[0], &[2]).unwrap();
    so.add_operator_product(pp.clone(), CalculatorComplex::from(1.0))
        .unwrap();
    system
        .add_operator_product(pp, CalculatorComplex::from(1.0))
        .unwrap();

    assert_eq!(
        system,
        BosonSystem::from_operator(so.clone(), None).unwrap()
    );
    assert_eq!(
        system.operator(),
        BosonSystem::from_operator(so.clone(), None)
            .unwrap()
            .operator()
    );
    assert_eq!(
        &so,
        BosonSystem::from_operator(so.clone(), None)
            .unwrap()
            .operator()
    );
}

// Test the from_operator and operator functions of the BosonSystem with number_modes = Some(2)
#[test]
fn from_boson_operator_some() {
    let mut so: BosonOperator = BosonOperator::new();
    let mut system = BosonSystem::new(Some(2));
    let pp: BosonProduct = BosonProduct::new(&[0], &[1]).unwrap();
    so.add_operator_product(pp.clone(), CalculatorComplex::from(1.0))
        .unwrap();
    system
        .add_operator_product(pp, CalculatorComplex::from(1.0))
        .unwrap();

    assert_eq!(
        system,
        BosonSystem::from_operator(so.clone(), Some(2)).unwrap()
    );
    assert_eq!(
        system.operator(),
        BosonSystem::from_operator(so.clone(), Some(2))
            .unwrap()
            .operator()
    );
    assert_eq!(
        &so,
        BosonSystem::from_operator(so.clone(), Some(2))
            .unwrap()
            .operator()
    );
    assert_eq!(
        BosonSystem::from_operator(so.clone(), Some(0)),
        Err(StruqtureError::CapacityExceeded)
    );
}

// Test the current_number_modes function of the BosonSystem
#[test]
fn internal_map_current_number_modes() {
    let pp_0: BosonProduct = BosonProduct::new(&[0], &[1]).unwrap();
    let pp_2: BosonProduct = BosonProduct::new(&[2], &[3]).unwrap();
    let mut so = BosonSystem::new(Some(4));
    assert_eq!(so.current_number_modes(), 0_usize);
    so.set(pp_0, CalculatorComplex::from(0.5)).unwrap();
    assert_eq!(so.current_number_modes(), 2_usize);
    so.set(pp_2, CalculatorComplex::from(0.5)).unwrap();
    assert_eq!(so.current_number_modes(), 4_usize);
}

// Test the len function of the BosonSystem
#[test]
fn internal_map_len() {
    let pp_2: BosonProduct = BosonProduct::new(&[0], &[2]).unwrap();
    let mut so = BosonSystem::new(Some(3));
    so.set(pp_2, CalculatorComplex::from(0.5)).unwrap();
    assert_eq!(so.len(), 1_usize);
}

// Test the set, get functions of the BosonSystem
#[test]
fn internal_map_set_get_dict() {
    let mut system = BosonSystem::new(Some(1));
    assert_eq!(system.current_number_modes(), 0_usize);
    assert_eq!(system.number_modes(), 1_usize);
    let pp_0: BosonProduct = BosonProduct::new(&[0], &[0]).unwrap();

    // 1) Test set and get functions
    // Vacant
    system
        .set(pp_0.clone(), CalculatorComplex::from(0.0))
        .unwrap();
    system
        .set(pp_0.clone(), CalculatorComplex::from(0.5))
        .unwrap();
    assert_eq!(system.current_number_modes(), 1_usize);
    assert_eq!(system.number_modes(), 1_usize);
    assert_eq!(system.get(&pp_0), CalculatorComplex::from(0.5));
    let pp_2: BosonProduct = BosonProduct::new(&[0], &[2]).unwrap();
    let error = system.set(pp_2, CalculatorComplex::from(0.5));
    assert_eq!(error, Err(StruqtureError::CapacityExceeded));

    // 2) Test keys, values functions
    let mut map: BTreeMap<BosonProduct, CalculatorComplex> = BTreeMap::new();
    map.insert(pp_0, CalculatorComplex::from(0.5));
    // terms
    let keys = system.keys();
    let values = system.values();
    for ((key_s, val_s), item_m) in keys.iter().zip(values.iter()).zip(map.iter()) {
        assert_eq!((key_s, val_s), item_m);
    }
    // keys
    for (key_s, key_m) in keys.iter().zip(map.keys()) {
        assert_eq!(key_s, key_m);
    }
    // values
    for (val_s, val_m) in values.iter().zip(map.values()) {
        assert_eq!(val_s, val_m);
    }
}

// Test the set, get and remove functions of the BosonSystem
#[test]
fn internal_map_set_get_remove() {
    let pp_2: BosonProduct = BosonProduct::new(&[0], &[2]).unwrap();
    let mut so = BosonSystem::new(Some(3));

    // 1) Test set and get functions
    // Vacant
    so.set(pp_2.clone(), CalculatorComplex::from(0.5)).unwrap();
    assert_eq!(so.get(&pp_2.clone()), CalculatorComplex::from(0.5));

    // 2) Test remove function
    so.remove(&pp_2);
    assert_eq!(so, BosonSystem::new(Some(3)));
}

// Test the add_operator_product function of the BosonSystem
#[test]
fn internal_map_add_operator_product() {
    let pp_2: BosonProduct = BosonProduct::new(&[0], &[2]).unwrap();
    let mut so = BosonSystem::new(Some(3));

    so.add_operator_product(pp_2.clone(), CalculatorComplex::from(0.5))
        .unwrap();
    assert_eq!(so.get(&pp_2), CalculatorComplex::from(0.5));
    so.add_operator_product(pp_2.clone(), CalculatorComplex::from(-0.5))
        .unwrap();
    assert_eq!(so.get(&pp_2), CalculatorComplex::from(0.0));
    let pp_3: BosonProduct = BosonProduct::new(&[0], &[3]).unwrap();
    let error = so.set(pp_3, CalculatorComplex::from(0.5));
    assert_eq!(error, Err(StruqtureError::CapacityExceeded));
}

// Test the keys and values functions of the BosonSystem
#[test]
fn internal_map_keys() {
    let pp_2: BosonProduct = BosonProduct::new(&[0], &[2]).unwrap();
    let mut so = BosonSystem::new(Some(3));
    so.set(pp_2.clone(), CalculatorComplex::from(0.5)).unwrap();

    let mut map: BTreeMap<BosonProduct, CalculatorComplex> = BTreeMap::new();
    map.insert(pp_2, CalculatorComplex::from(0.5));

    let keys = so.keys();
    let values = so.values();
    assert_eq!(keys.len(), 1);
    for ((key_s, val_s), item_m) in keys.iter().zip(values.iter()).zip(map.iter()) {
        assert_eq!((key_s, val_s), item_m);
    }
    for (key_s, key_m) in keys.iter().zip(map.keys()) {
        assert_eq!(key_s, key_m);
    }
    for (val_s, val_m) in values.iter().zip(map.values()) {
        assert_eq!(val_s, val_m);
    }
}

// Test the conversions of BosonSystem from and to rows of terms, and extend
#[test]
fn into_iter_from_iter_extend() {
    let pp_0: BosonProduct = BosonProduct::new(&[0], &[0]).unwrap();
    let pp_1: BosonProduct = BosonProduct::new(&[0], &[1]).unwrap();
    let mut so_0 = BosonSystem::new(None);
    let _ = so_0.add_operator_product(pp_0.clone(), CalculatorComplex::from(1.0));

    let so_iter = so_0.clone().into_terms();
    assert_eq!(BosonSystem::from_terms(so_iter), so_0);
    let so_iter: Vec<(BosonProduct, CalculatorComplex)> = so_0
        .keys()
        .into_iter()
        .zip(so_0.values().into_iter())
        .collect();
    assert_eq!(BosonSystem::from_terms(so_iter), so_0);
    let mut mapping: BTreeMap<BosonProduct, CalculatorComplex> = BTreeMap::new();
    mapping.insert(pp_1.clone(), CalculatorComplex::from(0.5));
    let mapping_iter = mapping.into_iter();
    so_0.extend(mapping_iter.collect()).unwrap();

    let mut so_0_1 = BosonSystem::new(None);
    let _ = so_0_1.add_operator_product(pp_0, CalculatorComplex::from(1.0));
    let _ = so_0_1.add_operator_product(pp_1, CalculatorComplex::from(0.5));

    assert_eq!(so_0, so_0_1);
}

// Test extend: the result differs from a system that declares a number of modes
#[test]
#[should_panic]
fn iter_extend_panic() {
    let pp_0: BosonProduct = BosonProduct::new(&[0], &[0]).unwrap();
    let pp_1: BosonProduct = BosonProduct::new(&[0], &[1]).unwrap();
    let mut system = BosonSystem::new(None);
    let _ = system.add_operator_product(pp_0.clone(), CalculatorComplex::from(1.0));

    let mut mapping: BTreeMap<BosonProduct, CalculatorComplex> = BTreeMap::new();
    mapping.insert(pp_1.clone(), CalculatorComplex::from(0.5));
    let mapping_iter = mapping.into_iter();
    system.extend(mapping_iter.collect()).unwrap();

    let mut system_0 = BosonSystem::new(Some(2));
    system_0.add_operator_product(pp_0, 1.0.into()).unwrap();
    system_0.add_operator_product(pp_1, 0.5.into()).unwrap();
    assert_eq!(system, system_0);
}

// Test the hermitian_conjugate function of the BosonSystem
#[test]
fn hermitian_test() {
    let pp: BosonProduct = BosonProduct::new(&[0], &[0]).unwrap();
    let mut system = BosonSystem::new(Some(1));
    let _ = system.add_operator_product(pp, CalculatorComplex::from(1.0));

    assert_eq!(system.hermitian_conjugate(), system.clone());
}

fn separate_out_terms_case(number_spins: (usize, usize)) {
    let pp_1_a: BosonProduct = BosonProduct::new(&[0], &[0]).unwrap();
    let pp_1_b: BosonProduct = BosonProduct::new(&[1], &[1]).unwrap();
    let pp_2_a: BosonProduct = BosonProduct::new(&[0, 1], &[1]).unwrap();
    let pp_2_b: BosonProduct = BosonProduct::new(&[0], &[0, 1]).unwrap();
    let pp_3_a: BosonProduct = BosonProduct::new(&[0, 1], &[0, 1]).unwrap();
    let pp_3_b: BosonProduct = BosonProduct::new(&[0, 2], &[0, 2]).unwrap();

    let mut allowed: Vec<(BosonProduct, f64)> = Vec::new();
    let mut not_allowed: Vec<(BosonProduct, f64)> = vec![
        (pp_1_a.clone(), 1.0),
        (pp_1_b.clone(), 1.1),
        (pp_2_a.clone(), 1.2),
        (pp_2_b.clone(), 1.3),
        (pp_3_a.clone(), 1.4),
        (pp_3_b.clone(), 1.5),
    ];

    match number_spins {
        (1, 1) => {
            allowed.push((pp_1_a.clone(), 1.0));
            allowed.push((pp_1_b.clone(), 1.1));
            not_allowed.remove(0);
            not_allowed.remove(0);
        }
        (2, 1) => {
            allowed.push((pp_2_a.clone(), 1.2));
            not_allowed.remove(2);
        }
        (1, 2) => {
            allowed.push((pp_2_b.clone(), 1.3));
            not_allowed.remove(3);
        }
        (2, 2) => {
            allowed.push((pp_3_a.clone(), 1.4));
            allowed.push((pp_3_b.clone(), 1.5));
            not_allowed.remove(4);
            not_allowed.remove(4);
        }
        _ => panic!(),
    }

    let mut separated = BosonSystem::default();
    for (key, value) in allowed.iter() {
        separated
            .add_operator_product(key.clone(), value.into())
            .unwrap();
    }
    let mut remainder = BosonSystem::default();
    for (key, value) in not_allowed.iter() {
        remainder
            .add_operator_product(key.clone(), value.into())
            .unwrap();
    }

    let mut so = BosonSystem::default();
    so.add_operator_product(pp_1_a, CalculatorComplex::from(1.0))
        .unwrap();
    so.add_operator_product(pp_1_b, CalculatorComplex::from(1.1))
        .unwrap();
    so.add_operator_product(pp_2_a, CalculatorComplex::from(1.2))
        .unwrap();
    so.add_operator_product(pp_2_b, CalculatorComplex::from(1.3))
        .unwrap();
    so.add_operator_product(pp_3_a, CalculatorComplex::from(1.4))
        .unwrap();
    so.add_operator_product(pp_3_b, CalculatorComplex::from(1.5))
        .unwrap();

    let result = so.separate_into_n_terms(number_spins).unwrap();
    assert_eq!(result.0, separated);
    assert_eq!(result.1, remainder);
}

// Test the separation of terms
#[test]
fn separate_out_terms() {
    separate_out_terms_case((1, 1));
}

#[test]
fn separate_out_terms_1_2() {
    separate_out_terms_case((1, 2));
}

#[test]
fn separate_out_terms_2_1() {
    separate_out_terms_case((2, 1));
}

#[test]
fn separate_out_terms_2_2() {
    separate_out_terms_case((2, 2));
}

// Test the negative operation: -BosonSystem
#[test]
fn negative_so() {
    let pp_0: BosonProduct = BosonProduct::new(&[0], &[0]).unwrap();
    let mut so_0 = BosonSystem::new(Some(1));
    let _ = so_0.add_operator_product(pp_0.clone(), CalculatorComplex::from(1.0));
    let mut so_0_minus = BosonSystem::new(Some(1));
    let _ = so_0_minus.add_operator_product(pp_0, CalculatorComplex::from(-1.0));

    assert_eq!(-so_0, so_0_minus);
}

// Test the addition: BosonSystem + BosonSystem
#[test]
fn add_so_so() {
    let pp_0: BosonProduct = BosonProduct::new(&[0], &[0]).unwrap();
    let pp_1: BosonProduct = BosonProduct::new(&[0], &[1]).unwrap();
    let mut so_0 = BosonSystem::new(Some(2));
    let _ = so_0.add_operator_product(pp_0.clone(), CalculatorComplex::from(1.0));
    let mut so_1 = BosonSystem::new(Some(2));
    let _ = so_1.add_operator_product(pp_1.clone(), CalculatorComplex::from(0.5));
    let mut so_0_1 = BosonSystem::new(Some(2));
    let _ = so_0_1.add_operator_product(pp_0, CalculatorComplex::from(1.0));
    let _ = so_0_1.add_operator_product(pp_1, CalculatorComplex::from(0.5));

    assert_eq!(so_0 + so_1, Ok(so_0_1));
}

// Test the subtraction: BosonSystem - BosonSystem
#[test]
fn sub_so_so() {
    let pp_0: BosonProduct = BosonProduct::new(&[0], &[0]).unwrap();
    let pp_1: BosonProduct = BosonProduct::new(&[0], &[1]).unwrap();
    let mut so_0 = BosonSystem::new(Some(2));
    let _ = so_0.add_operator_product(pp_0.clone(), CalculatorComplex::from(1.0));
    let mut so_1 = BosonSystem::new(Some(2));
    let _ = so_1.add_operator_product(pp_1.clone(), CalculatorComplex::from(0.5));
    let mut so_0_1 = BosonSystem::new(Some(2));
    let _ = so_0_1.add_operator_product(pp_0, CalculatorComplex::from(1.0));
    let _ = so_0_1.add_operator_product(pp_1, CalculatorComplex::from(-0.5));

    assert_eq!(so_0 - so_1, Ok(so_0_1));
}

// Test the multiplication: BosonSystem * BosonSystem
#[test]
fn mul_so_so() {
    let pp_0: BosonProduct = BosonProduct::new(&[0], &[0]).unwrap();
    let pp_1: BosonProduct = BosonProduct::new(&[1], &[1]).unwrap();
    let pp_0_1: BosonProduct = BosonProduct::new(&[0, 1], &[0, 1]).unwrap();
    let mut so_0 = BosonSystem::new(Some(2));
    let _ = so_0.add_operator_product(pp_0, CalculatorComplex::from(2.0));
    let mut so_1 = BosonSystem::new(Some(2));
    let _ = so_1.add_operator_product(pp_1, CalculatorComplex::from(0.5));
    let mut so_0_1 = BosonSystem::new(Some(2));
    let _ = so_0_1.add_operator_product(pp_0_1, CalculatorComplex::from(1.0));
    assert_eq!((so_0 * so_1), so_0_1);
}

// Test the multiplication: BosonSystem * BosonSystem where they have a BosonProduct with the same index
#[test]
fn mul_so_so_same_index() {
    let pp_0: BosonProduct = BosonProduct::new(&[0], &[0]).unwrap();
    let pp_1: BosonProduct = BosonProduct::new(&[0], &[0]).unwrap();
    let pp_0_1: BosonProduct = BosonProduct::new(&[0, 0], &[0, 0]).unwrap();
    let pp_0_1_comm: BosonProduct = BosonProduct::new(&[0], &[0]).unwrap();
    let mut so_0 = BosonSystem::new(Some(1));
    let _ = so_0.add_operator_product(pp_0, CalculatorComplex::from(2.0));
    let mut so_1 = BosonSystem::new(Some(1));
    let _ = so_1.add_operator_product(pp_1, CalculatorComplex::from(0.5));
    let mut so_0_1 = BosonSystem::new(Some(1));
    let _ = so_0_1.add_operator_product(pp_0_1, CalculatorComplex::new(1.0, 0.0));
    let _ = so_0_1.add_operator_product(pp_0_1_comm, CalculatorComplex::new(1.0, 0.0));

    assert_eq!(so_0 * so_1, so_0_1);
}

// Test the multiplication: BosonSystem * CalculatorComplex
#[test]
fn mul_so_cc() {
    let pp_0: BosonProduct = BosonProduct::new(&[0], &[2]).unwrap();
    let mut so_0 = BosonSystem::new(Some(3));
    let _ = so_0.add_operator_product(pp_0.clone(), CalculatorComplex::from(2.0));
    let mut so_0_1 = BosonSystem::new(Some(3));
    let _ = so_0_1.add_operator_product(pp_0, CalculatorComplex::from(6.0));

    assert_eq!(so_0 * CalculatorComplex::from(3.0), so_0_1);
}

// Test the multiplication: BosonSystem * CalculatorFloat
#[test]
fn mul_so_cf() {
    let pp_0: BosonProduct = BosonProduct::new(&[0], &[2]).unwrap();
    let mut so_0 = BosonSystem::new(Some(3));
    let _ = so_0.add_operator_product(pp_0.clone(), CalculatorComplex::from(2.0));
    let mut so_0_1 = BosonSystem::new(Some(3));
    let _ = so_0_1.add_operator_product(pp_0, CalculatorComplex::from(6.0));

    assert_eq!(so_0 * CalculatorFloat::from(3.0), so_0_1);
}

// Test the Clone and PartialEq traits of BosonSystem
#[test]
fn clone_partial_eq() {
    let pp: BosonProduct = BosonProduct::new(&[0], &[0]).unwrap();
    let mut so = BosonSystem::new(Some(1));
    so.set(pp, CalculatorComplex::from(0.5)).unwrap();

    // Test Clone trait
    assert_eq!(so.clone(), so);

    // Test PartialEq trait
    let pp_1: BosonProduct = BosonProduct::new(&[0], &[0]).unwrap();
    let mut so_1 = BosonSystem::new(Some(1));
    so_1.set(pp_1, CalculatorComplex::from(0.5)).unwrap();
    let pp_2: BosonProduct = BosonProduct::new(&[0], &[2]).unwrap();
    let mut so_2 = BosonSystem::new(Some(3));
    so_2.set(pp_2, CalculatorComplex::from(0.5)).unwrap();
    assert!(so_1 == so);
    assert!(so == so_1);
    assert!(so_2 != so);
    assert!(so != so_2);
}
