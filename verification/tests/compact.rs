//! Tests of the compact form of operators and systems, and of the change
//! of the basis of operators.

use qoqo_calculator::{CalculatorComplex, CalculatorFloat};
use struqture::basis_change::convert_operator;
use struqture::bosons::{
    BosonLindbladNoiseSystem, BosonLindbladOpenSystem, BosonProduct, BosonSystem,
    HermitianBosonProduct,
};
use struqture::compact::{CompactOperator, CompactSystem};
use struqture::encoding::StruqtureVersion;
use struqture::error::StruqtureError;
use struqture::fermions::{FermionProduct, FermionSystem};
use struqture::spins::{
    PauliProduct, PlusMinusOperator, PlusMinusProduct, SinglePlusMinusOperator, SingleSpinOperator,
    SpinOperator, SpinSystem,
};

fn version() -> StruqtureVersion {
    StruqtureVersion {
        major_version: 1,
        minor_version: 0,
    }
}

/// Test the compact form of BosonSystem
#[test]
fn serde_compact() {
    let pp = BosonProduct::new(&[0], &[0]).unwrap();
    let mut so = BosonSystem::new(Some(1));
    so.set(pp, CalculatorComplex::from(1.0)).unwrap();

    let compact = so.compact(version());
    assert_eq!(
        compact,
        CompactSystem {
            number: Some(1),
            operator: CompactOperator {
                items: vec![(
                    vec![vec![0], vec![0]],
                    CalculatorFloat::from(1.0),
                    CalculatorFloat::from(0.0)
                )],
                version: version(),
            }
        }
    );
    assert_eq!(BosonSystem::from_compact(&compact, version()), Ok(so));
}

#[test]
fn compact_forms_of_other_keys() {
    let mut spins = SpinSystem::new(None);
    spins
        .set(PauliProduct::new().x(0).z(5), CalculatorComplex::new(0.5, "g"))
        .unwrap();
    let compact = spins.compact(version());
    assert_eq!(
        compact.operator.items,
        vec![(
            vec![vec![0, 5], vec![1, 3]],
            CalculatorFloat::from(0.5),
            CalculatorFloat::from("g")
        )]
    );
    assert_eq!(SpinSystem::from_compact(&compact, version()), Ok(spins));

    let mut noise = BosonLindbladNoiseSystem::new(Some(4));
    noise
        .set(
            (
                BosonProduct::new(&[0, 1], &[2]).unwrap(),
                BosonProduct::new(&[], &[3]).unwrap(),
            ),
            CalculatorComplex::from(2.0),
        )
        .unwrap();
    let compact = noise.compact(version());
    assert_eq!(
        compact.operator.items[0].0,
        vec![vec![0, 1], vec![2], vec![], vec![3]]
    );
    assert_eq!(
        BosonLindbladNoiseSystem::from_compact(&compact, version()),
        Ok(noise)
    );

    let mut fermions = FermionSystem::new(Some(3));
    fermions
        .set(
            FermionProduct::new(&[0, 2], &[1]).unwrap(),
            CalculatorComplex::from(1.0),
        )
        .unwrap();
    let compact = fermions.compact(version());
    assert_eq!(FermionSystem::from_compact(&compact, version()), Ok(fermions));
}

#[test]
fn compact_decode_errors() {
    let form = |number: Option<usize>, rows: Vec<Vec<usize>>| CompactSystem {
        number,
        operator: CompactOperator {
            items: vec![(rows, CalculatorFloat::from(1.0), CalculatorFloat::from(0.0))],
            version: version(),
        },
    };
    // too few lists
    assert_eq!(
        BosonSystem::from_compact(&form(None, vec![vec![0]]), version()),
        Err(StruqtureError::DecodeError)
    );
    // fermionic creators out of order
    assert_eq!(
        FermionSystem::from_compact(&form(None, vec![vec![1, 0], vec![]]), version()),
        Err(StruqtureError::DecodeError)
    );
    // bosonic creators out of order are sorted
    assert!(BosonSystem::from_compact(&form(None, vec![vec![1, 0], vec![]]), version()).is_ok());
    // a number that stands for no Pauli operator
    assert_eq!(
        SpinSystem::from_compact(&form(None, vec![vec![0], vec![7]]), version()),
        Err(StruqtureError::DecodeError)
    );
    // sites and operators of different length
    assert_eq!(
        SpinSystem::from_compact(&form(None, vec![vec![0, 1], vec![1]]), version()),
        Err(StruqtureError::DecodeError)
    );
    // beyond the number of modes
    assert_eq!(
        BosonSystem::from_compact(&form(Some(1), vec![vec![3], vec![]]), version()),
        Err(StruqtureError::DecodeError)
    );
    // another major version
    assert_eq!(
        BosonSystem::from_compact(
            &form(None, vec![vec![3], vec![]]),
            StruqtureVersion {
                major_version: 2,
                minor_version: 0
            }
        ),
        Err(StruqtureError::DecodeError)
    );
}

#[test]
fn operators_change_their_basis() {
    // 4 (+)_0 Z_1 = 2 X_0 Z_1 + 2i Y_0 Z_1
    let mut plus_minus = PlusMinusOperator::new();
    plus_minus
        .set(
            PlusMinusProduct::new().plus(0).z(1),
            CalculatorComplex::from(4.0),
        )
        .unwrap();
    let spins =
        convert_operator::<SinglePlusMinusOperator, SingleSpinOperator, _>(&plus_minus);
    let mut expected = SpinOperator::new();
    expected
        .set(PauliProduct::new().x(0).z(1), CalculatorComplex::from(2.0))
        .unwrap();
    expected
        .set(PauliProduct::new().y(0).z(1), CalculatorComplex::new(0.0, 2.0))
        .unwrap();
    assert_eq!(spins, expected);
    // and back: X = + + -, Y = -i (+) + i (-)
    let back = convert_operator::<SingleSpinOperator, SinglePlusMinusOperator, _>(&spins);
    assert_eq!(back, plus_minus);

    // (-)_0 (-)_1 = (X - iY)(X - iY) / 4
    let mut lowering = PlusMinusOperator::new();
    lowering
        .set(
            PlusMinusProduct::new().minus(0).minus(1),
            CalculatorComplex::from(1.0),
        )
        .unwrap();
    let spins = convert_operator::<SinglePlusMinusOperator, SingleSpinOperator, _>(&lowering);
    assert_eq!(spins.len(), 4);
    assert_eq!(
        spins.get(&PauliProduct::new().x(0).x(1)),
        CalculatorComplex::from(0.25)
    );
    assert_eq!(
        spins.get(&PauliProduct::new().x(0).y(1)),
        CalculatorComplex::new(0.0, -0.25)
    );
    assert_eq!(
        spins.get(&PauliProduct::new().y(0).y(1)),
        CalculatorComplex::from(-0.25)
    );
}

/// Test the compact form of BosonLindbladOpenSystem
#[test]
fn compact_forms_of_open_systems() {
    let mut open = BosonLindbladOpenSystem::new(Some(2));
    open.system_add_operator_product(
        HermitianBosonProduct::new(&[0], &[1]).unwrap(),
        CalculatorComplex::new(0.5, 0.25),
    )
    .unwrap();
    open.noise_add_operator_product(
        (
            BosonProduct::new(&[0], &[0]).unwrap(),
            BosonProduct::new(&[1], &[]).unwrap(),
        ),
        CalculatorComplex::from(2.0),
    )
    .unwrap();

    let (system, noise) = open.compact(version());
    assert_eq!(system.number, Some(2));
    assert_eq!(noise.number, Some(2));
    assert_eq!(
        system.operator.items,
        vec![(
            vec![vec![0], vec![1]],
            CalculatorFloat::from(0.5),
            CalculatorFloat::from(0.25)
        )]
    );
    assert_eq!(
        noise.operator.items,
        vec![(
            vec![vec![0], vec![0], vec![1], vec![]],
            CalculatorFloat::from(2.0),
            CalculatorFloat::from(0.0)
        )]
    );
    assert_eq!(
        BosonLindbladOpenSystem::from_compact(&system, &noise, version()),
        Ok(open.clone())
    );

    // the halves must declare the same number
    let mut other = noise.clone();
    other.number = Some(3);
    assert_eq!(
        BosonLindbladOpenSystem::from_compact(&system, &other, version()),
        Err(StruqtureError::DecodeError)
    );
    // a half without a number takes the number of the other
    let mut other = noise.clone();
    other.number = None;
    assert_eq!(
        BosonLindbladOpenSystem::from_compact(&system, &other, version()),
        Ok(open)
    );
    // the form of the noise is no form of a Hamiltonian
    assert_eq!(
        BosonLindbladOpenSystem::from_compact(&noise, &noise, version()),
        Err(StruqtureError::DecodeError)
    );
}
