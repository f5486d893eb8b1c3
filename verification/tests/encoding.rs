//! Tests of the readable and the binary form of operators and systems.

use qoqo_calculator::{CalculatorComplex, CalculatorFloat};
use struqture::bosons::{
    BosonHamiltonianSystem, BosonLindbladNoiseSystem, BosonLindbladOpenSystem, BosonOperator,
    BosonProduct, BosonSystem, HermitianBosonProduct,
};
use struqture::encoding::{frame, unframe, ReadableOperator, ReadableSystem, StruqtureVersion};
use struqture::error::StruqtureError;
use struqture::fermions::{FermionProduct, FermionSystem};
use struqture::spins::{PauliProduct, SpinHamiltonianSystem, SpinSystem};

fn version() -> StruqtureVersion {
    StruqtureVersion {
        major_version: 1,
        minor_version: 2,
    }
}

/// Test the readable form of BosonSystem through JSON
#[test]
fn serde_json() {
    let pp = BosonProduct::new(&[0], &[2]).unwrap();
    let mut so = BosonSystem::new(Some(3));
    so.set(pp, CalculatorComplex::from(1.0)).unwrap();

    let readable = so.readable(version());
    let serialized = serde_json::to_string(&(
        &readable.number,
        &readable.operator.items,
        readable.operator.version.major_version,
        readable.operator.version.minor_version,
    ))
    .unwrap();
    let (number, items, major_version, minor_version): (
        Option<usize>,
        Vec<(Vec<String>, CalculatorFloat, CalculatorFloat)>,
        u32,
        u32,
    ) = serde_json::from_str(&serialized).unwrap();
    let read = ReadableSystem {
        number,
        operator: ReadableOperator {
            items,
            version: StruqtureVersion {
                major_version,
                minor_version,
            },
        },
    };
    let deserialized = BosonSystem::from_readable(&read, version()).unwrap();

    assert_eq!(so, deserialized);
}

/// Test the readable form of BosonSystem
#[test]
fn serde_readable() {
    let pp = BosonProduct::new(&[0], &[0]).unwrap();
    let mut so = BosonSystem::new(Some(1));
    so.set(pp, CalculatorComplex::from(1.0)).unwrap();
    let readable = so.readable(version());
    assert_eq!(
        readable,
        ReadableSystem {
            number: Some(1),
            operator: ReadableOperator {
                items: vec![(
                    vec!["c0a0".to_string()],
                    CalculatorFloat::from(1.0),
                    CalculatorFloat::from(0.0)
                )],
                version: version(),
            }
        }
    );
    assert_eq!(BosonSystem::from_readable(&readable, version()), Ok(so));
}

/// Test the binary form of BosonSystem
#[test]
fn bincode() {
    let pp = BosonProduct::new(&[0], &[1]).unwrap();
    let mut so = BosonSystem::new(Some(2));
    so.set(pp, CalculatorComplex::from(1.0)).unwrap();

    let serialized = so.to_bincode(version()).unwrap();
    let deserialized = BosonSystem::from_bincode(&serialized, version()).unwrap();
    assert_eq!(deserialized, so);

    let encoded: Vec<u8> = so.readable(version()).to_bincode().unwrap();
    let decoded = BosonSystem::from_bincode(&encoded[..], version()).unwrap();
    assert_eq!(so, decoded);
}

#[test]
fn readable_round_trip_with_symbolic_coefficients() {
    let mut system = FermionSystem::new(None);
    system
        .set(
            FermionProduct::new(&[0, 3], &[1]).unwrap(),
            CalculatorComplex::new("a", -2.5),
        )
        .unwrap();
    system
        .set(
            FermionProduct::new(&[], &[]).unwrap(),
            CalculatorComplex::new(0.0, "b * c"),
        )
        .unwrap();
    let readable = system.readable(version());
    assert_eq!(readable.operator.items.len(), 2);
    assert_eq!(readable.operator.items[0].0, vec!["c0c3a1".to_string()]);
    assert_eq!(readable.operator.items[1].0, vec!["I".to_string()]);
    assert_eq!(FermionSystem::from_readable(&readable, version()), Ok(system.clone()));
    let bytes = system.to_bincode(version()).unwrap();
    assert_eq!(FermionSystem::from_bincode(&bytes, version()), Ok(system));
}

#[test]
fn readable_versions() {
    let mut operator = BosonOperator::new();
    operator
        .set(BosonProduct::new(&[0], &[0]).unwrap(), CalculatorComplex::from(1.0))
        .unwrap();
    let readable = operator.readable(version());
    // a reader of the same or a later minor version reads it
    assert!(BosonOperator::from_readable(&readable, version()).is_ok());
    assert!(BosonOperator::from_readable(
        &readable,
        StruqtureVersion {
            major_version: 1,
            minor_version: 5
        }
    )
    .is_ok());
    // a reader of an earlier minor version or of another major version does not
    assert_eq!(
        BosonOperator::from_readable(
            &readable,
            StruqtureVersion {
                major_version: 1,
                minor_version: 1
            }
        ),
        Err(StruqtureError::DecodeError)
    );
    assert_eq!(
        BosonOperator::from_readable(
            &readable,
            StruqtureVersion {
                major_version: 2,
                minor_version: 2
            }
        ),
        Err(StruqtureError::DecodeError)
    );
}

#[test]
fn readable_decode_errors() {
    let item = |texts: Vec<&str>, re: f64| {
        (
            texts.into_iter().map(|t| t.to_string()).collect::<Vec<String>>(),
            CalculatorFloat::from(re),
            CalculatorFloat::from(0.0),
        )
    };
    let form = |number: Option<usize>, items| ReadableSystem {
        number,
        operator: ReadableOperator {
            items,
            version: version(),
        },
    };
    // a key that names no product
    assert_eq!(
        BosonSystem::from_readable(&form(None, vec![item(vec!["c0j1"], 1.0)]), version()),
        Err(StruqtureError::DecodeError)
    );
    // too many texts for a key
    assert_eq!(
        BosonSystem::from_readable(&form(None, vec![item(vec!["c0", "a1"], 1.0)]), version()),
        Err(StruqtureError::DecodeError)
    );
    // too few texts for a pair
    assert_eq!(
        BosonLindbladNoiseSystem::from_readable(&form(None, vec![item(vec!["c0"], 1.0)]), version()),
        Err(StruqtureError::DecodeError)
    );
    // a term beyond the number of modes
    assert_eq!(
        BosonSystem::from_readable(&form(Some(1), vec![item(vec!["c0a1"], 1.0)]), version()),
        Err(StruqtureError::DecodeError)
    );
    // an imaginary part for a product that is its own adjoint
    let complex = (
        vec!["0Z".to_string()],
        CalculatorFloat::from(1.0),
        CalculatorFloat::from(1.0),
    );
    assert_eq!(
        SpinHamiltonianSystem::from_readable(&form(None, vec![complex.clone()]), version()),
        Err(StruqtureError::DecodeError)
    );
    assert!(SpinSystem::from_readable(&form(None, vec![complex]), version()).is_ok());
    // a later item for a key replaces an earlier one
    let twice = BosonSystem::from_readable(
        &form(None, vec![item(vec!["c0a1"], 1.0), item(vec!["c0a1"], 2.0)]),
        version(),
    )
    .unwrap();
    assert_eq!(twice.len(), 1);
    assert_eq!(
        twice.get(&BosonProduct::new(&[0], &[1]).unwrap()),
        CalculatorComplex::from(2.0)
    );
}

/// Test the binary form with bytes that are the form of nothing
#[test]
fn bosonic_open_system_test_value_error_bincode() {
    assert_eq!(
        BosonLindbladOpenSystem::from_bincode("J".as_bytes(), version()),
        Err(StruqtureError::DecodeError)
    );
    assert_eq!(
        BosonSystem::from_bincode("J".as_bytes(), version()),
        Err(StruqtureError::DecodeError)
    );
}

/// Test the binary form of BosonLindbladOpenSystem
#[test]
fn bosonic_open_system_test_to_from_bincode() {
    let mut system = BosonLindbladOpenSystem::new(None);
    system
        .system_add_operator_product(
            HermitianBosonProduct::from_str("c0a0").unwrap(),
            CalculatorComplex::from(0.1),
        )
        .unwrap();
    system
        .noise_add_operator_product(
            (
                BosonProduct::from_str("c0a0").unwrap(),
                BosonProduct::from_str("c0a0").unwrap(),
            ),
            CalculatorComplex::from(0.1),
        )
        .unwrap();

    let serialised = system.to_bincode(version()).unwrap();
    let deserialised = BosonLindbladOpenSystem::from_bincode(&serialised, version()).unwrap();
    assert_eq!(deserialised, system);

    let deserialised_error = BosonLindbladOpenSystem::from_bincode(
        &bincode::serialize("fails").unwrap(),
        version(),
    );
    assert_eq!(deserialised_error, Err(StruqtureError::DecodeError));

    let deserialised_error =
        BosonLindbladOpenSystem::from_bincode(&bincode::serialize(&vec![0]).unwrap(), version());
    assert_eq!(deserialised_error, Err(StruqtureError::DecodeError));

    // no bytes, and bytes cut short
    assert_eq!(
        BosonLindbladOpenSystem::from_bincode(&[], version()),
        Err(StruqtureError::DecodeError)
    );
    for cut in [1, 7, 8, 9, serialised.len() / 2, serialised.len() - 1] {
        assert_eq!(
            BosonLindbladOpenSystem::from_bincode(&serialised[..cut], version()),
            Err(StruqtureError::DecodeError)
        );
    }
}

/// Test the readable form of BosonLindbladOpenSystem through JSON
#[test]
fn bosonic_open_system_test_to_from_json() {
    let mut system = BosonLindbladOpenSystem::new(None);
    system
        .system_add_operator_product(
            HermitianBosonProduct::from_str("c0a0").unwrap(),
            CalculatorComplex::from(0.1),
        )
        .unwrap();
    system
        .noise_add_operator_product(
            (
                BosonProduct::from_str("c0a0").unwrap(),
                BosonProduct::from_str("c0a0").unwrap(),
            ),
            CalculatorComplex::from(0.1),
        )
        .unwrap();

    let (hamiltonian, noise) = system.readable(version());
    let serialised = serde_json::to_string(&(
        (&hamiltonian.number, &hamiltonian.operator.items),
        (&noise.number, &noise.operator.items),
    ))
    .unwrap();
    type Part = (Option<usize>, Vec<(Vec<String>, CalculatorFloat, CalculatorFloat)>);
    let (first, second): (Part, Part) = serde_json::from_str(&serialised).unwrap();
    let read = |part: Part| ReadableSystem {
        number: part.0,
        operator: ReadableOperator {
            items: part.1,
            version: version(),
        },
    };
    let deserialised =
        BosonLindbladOpenSystem::from_readable(&read(first), &read(second), version()).unwrap();
    assert_eq!(deserialised, system);

    let failed: Result<(Part, Part), _> = serde_json::from_str("fails");
    assert!(failed.is_err());
}

#[test]
fn binary_forms_of_the_halves() {
    let mut hamiltonian = BosonHamiltonianSystem::new(Some(2));
    hamiltonian
        .set(
            HermitianBosonProduct::from_str("c0a1").unwrap(),
            CalculatorComplex::new(1.0, 2.0),
        )
        .unwrap();
    let bytes = hamiltonian.to_bincode(version()).unwrap();
    assert_eq!(
        BosonHamiltonianSystem::from_bincode(&bytes, version()),
        Ok(hamiltonian)
    );
    // the bytes of a Hamiltonian are not those of a noise system
    assert_eq!(
        BosonLindbladNoiseSystem::from_bincode(&bytes, version()),
        Err(StruqtureError::DecodeError)
    );
    // the product c1a0 is not the one that a Hamiltonian keeps
    let mut general = BosonSystem::new(Some(2));
    general
        .set(BosonProduct::new(&[1], &[0]).unwrap(), CalculatorComplex::from(1.0))
        .unwrap();
    let bytes = general.to_bincode(version()).unwrap();
    assert_eq!(
        BosonHamiltonianSystem::from_bincode(&bytes, version()),
        Err(StruqtureError::DecodeError)
    );
    let spins = {
        let mut spins = SpinSystem::new(None);
        spins
            .set(PauliProduct::new().x(0).z(3), CalculatorComplex::new(0.0, 1.0))
            .unwrap();
        spins
    };
    let bytes = spins.to_bincode(version()).unwrap();
    assert_eq!(SpinSystem::from_bincode(&bytes, version()), Ok(spins));
}

#[test]
fn frames() {
    let first = vec![1_u8, 2, 3];
    let second = vec![9_u8, 8];
    let row = frame(&first, &second);
    assert_eq!(row, vec![3, 0, 0, 0, 0, 0, 0, 0, 1, 2, 3, 9, 8]);
    assert_eq!(unframe(&row), Ok((first, second)));
    assert_eq!(unframe(&row[..10]), Err(StruqtureError::DecodeError));
    assert_eq!(unframe(&row[..7]), Err(StruqtureError::DecodeError));
    assert_eq!(unframe(&row[..11]), Ok((vec![1, 2, 3], vec![])));
    assert_eq!(
        unframe(&[255, 255, 255, 255, 255, 255, 255, 255, 1]),
        Err(StruqtureError::DecodeError)
    );
    let long = vec![7_u8; 300];
    let row = frame(&long, &[].to_vec());
    assert_eq!(&row[..8], &[44, 1, 0, 0, 0, 0, 0, 0]);
    assert_eq!(unframe(&row), Ok((long, vec![])));
}
