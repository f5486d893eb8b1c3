//! Tests of the Jordan-Wigner mapping from spins to fermions.

use qoqo_calculator::CalculatorComplex;
use struqture::error::StruqtureError;
use struqture::fermions::{
    FermionLindbladNoiseOperator, FermionOperator, FermionProduct, FermionSystem,
    HermitianFermionProduct,
};
use struqture::mappings::{
    fermion_hamiltonian, jordan_wigner, jordan_wigner_hamiltonian, jordan_wigner_noise,
    jordan_wigner_noise_system, jordan_wigner_open_system, jordan_wigner_product,
    jordan_wigner_system,
};
use struqture::spins::{
    DecoherenceProduct, PauliProduct, PlusMinusProduct, SpinHamiltonian,
    SpinLindbladNoiseOperator, SpinLindbladNoiseSystem, SpinLindbladOpenSystem, SpinOperator,
    SpinSystem,
};

fn fermions(terms: &[(&[usize], &[usize], f64, f64)]) -> FermionOperator {
    let mut operator = FermionOperator::new();
    for (creators, annihilators, re, im) in terms.iter() {
        operator
            .add_operator_product(
                FermionProduct::new(creators, annihilators).unwrap(),
                CalculatorComplex::new(*re, *im),
            )
            .unwrap();
    }
    operator
}

#[test]
fn jordan_wigner_identity() {
    let image = jordan_wigner_product(&PauliProduct::new());
    assert_eq!(image, fermions(&[(&[], &[], 1.0, 0.0)]));
}

#[test]
fn jordan_wigner_z() {
    let image = jordan_wigner_product(&PauliProduct::new().z(0));
    assert_eq!(
        image,
        fermions(&[(&[], &[], 1.0, 0.0), (&[0], &[0], -2.0, 0.0)])
    );
    let image = jordan_wigner_product(&PauliProduct::new().z(3));
    assert_eq!(
        image,
        fermions(&[(&[], &[], 1.0, 0.0), (&[3], &[3], -2.0, 0.0)])
    );
}

#[test]
fn jordan_wigner_x_and_y_on_the_first_site() {
    let image = jordan_wigner_product(&PauliProduct::new().x(0));
    assert_eq!(
        image,
        fermions(&[(&[0], &[], 1.0, 0.0), (&[], &[0], 1.0, 0.0)])
    );
    let image = jordan_wigner_product(&PauliProduct::new().y(0));
    assert_eq!(
        image,
        fermions(&[(&[0], &[], 0.0, 1.0), (&[], &[0], 0.0, -1.0)])
    );
}

#[test]
fn jordan_wigner_x_with_string() {
    // (1 - 2 n0) (c1 + a1) = c1 + a1 + 2 c0 c1 a0 - 2 c0 a0 a1
    let image = jordan_wigner_product(&PauliProduct::new().x(1));
    assert_eq!(
        image,
        fermions(&[
            (&[1], &[], 1.0, 0.0),
            (&[], &[1], 1.0, 0.0),
            (&[0, 1], &[0], 2.0, 0.0),
            (&[0], &[0, 1], -2.0, 0.0)
        ])
    );
}

#[test]
fn jordan_wigner_keeps_the_pauli_algebra() {
    let x0 = jordan_wigner_product(&PauliProduct::new().x(0));
    let y0 = jordan_wigner_product(&PauliProduct::new().y(0));
    let z0 = jordan_wigner_product(&PauliProduct::new().z(0));
    let identity = jordan_wigner_product(&PauliProduct::new());
    // X Y = i Z
    assert_eq!(x0.mul(&y0), z0.scale(CalculatorComplex::new(0.0, 1.0)));
    // Y X = -i Z
    assert_eq!(y0.mul(&x0), z0.scale(CalculatorComplex::new(0.0, -1.0)));
    // each is its own inverse
    assert_eq!(x0.mul(&x0), identity);
    assert_eq!(y0.mul(&y0), identity);
    assert_eq!(z0.mul(&z0), identity);

    let x2 = jordan_wigner_product(&PauliProduct::new().x(2));
    let y2 = jordan_wigner_product(&PauliProduct::new().y(2));
    let z2 = jordan_wigner_product(&PauliProduct::new().z(2));
    assert_eq!(x2.mul(&y2), z2.scale(CalculatorComplex::new(0.0, 1.0)));
    assert_eq!(x2.mul(&x2), identity);
}

#[test]
fn jordan_wigner_operators_on_different_sites_commute() {
    let x0 = jordan_wigner_product(&PauliProduct::new().x(0));
    let x1 = jordan_wigner_product(&PauliProduct::new().x(1));
    let y2 = jordan_wigner_product(&PauliProduct::new().y(2));
    let z1 = jordan_wigner_product(&PauliProduct::new().z(1));
    assert_eq!(x0.mul(&x1), x1.mul(&x0));
    assert_eq!(x0.mul(&y2), y2.mul(&x0));
    assert_eq!(x1.mul(&y2), y2.mul(&x1));
    assert_eq!(z1.mul(&y2), y2.mul(&z1));
    // the image of a product is the product of the images
    assert_eq!(
        jordan_wigner_product(&PauliProduct::new().x(0).x(1)),
        x0.mul(&x1)
    );
    assert_eq!(
        jordan_wigner_product(&PauliProduct::new().x(0).z(1).y(2)),
        x0.mul(&z1).mul(&y2)
    );
}

#[test]
fn jordan_wigner_of_operators_and_systems() {
    let mut spins = SpinOperator::new();
    spins
        .add_operator_product(PauliProduct::new().z(0), CalculatorComplex::from(0.5))
        .unwrap();
    spins
        .add_operator_product(PauliProduct::new().z(1), CalculatorComplex::from(0.5))
        .unwrap();
    // 0.5 (1 - 2 n0) + 0.5 (1 - 2 n1) = 1 - n0 - n1
    assert_eq!(
        jordan_wigner(&spins),
        fermions(&[
            (&[], &[], 1.0, 0.0),
            (&[0], &[0], -1.0, 0.0),
            (&[1], &[1], -1.0, 0.0)
        ])
    );

    let mut system = SpinSystem::new(Some(3));
    system
        .add_operator_product(PauliProduct::new().x(1), CalculatorComplex::from(1.0))
        .unwrap();
    let image = jordan_wigner_system(&system);
    assert_eq!(image.number_modes(), 3);
    assert_eq!(image.current_number_modes(), 2);
    let mut expected = FermionSystem::new(Some(3));
    for (creators, annihilators, re) in [
        (vec![1], vec![], 1.0),
        (vec![], vec![1], 1.0),
        (vec![0, 1], vec![0], 2.0),
        (vec![0], vec![0, 1], -2.0),
    ] {
        expected
            .add_operator_product(
                FermionProduct::new(&creators, &annihilators).unwrap(),
                CalculatorComplex::from(re),
            )
            .unwrap();
    }
    assert_eq!(image, expected);
}

fn fermion_pairs(
    terms: &[((&[usize], &[usize]), (&[usize], &[usize]), f64)],
) -> FermionLindbladNoiseOperator {
    let mut operator = FermionLindbladNoiseOperator::new();
    for (left, right, re) in terms.iter() {
        operator
            .add_operator_product(
                (
                    FermionProduct::new(left.0, left.1).unwrap(),
                    FermionProduct::new(right.0, right.1).unwrap(),
                ),
                CalculatorComplex::new(*re, 0.0),
            )
            .unwrap();
    }
    operator
}

#[test]
fn jordan_wigner_of_raising_and_lowering() {
    // raising a spin empties the mode, lowering it fills the mode
    let image = jordan_wigner_product(&PlusMinusProduct::new().plus(0));
    assert_eq!(image, fermions(&[(&[], &[0], 1.0, 0.0)]));
    let image = jordan_wigner_product(&PlusMinusProduct::new().minus(0));
    assert_eq!(image, fermions(&[(&[0], &[], 1.0, 0.0)]));
    // (1 - 2 n0) a1 = a1 - 2 c0 a0 a1
    let image = jordan_wigner_product(&PlusMinusProduct::new().plus(1));
    assert_eq!(
        image,
        fermions(&[(&[], &[1], 1.0, 0.0), (&[0], &[0, 1], -2.0, 0.0)])
    );
    let image = jordan_wigner_product(&PlusMinusProduct::new().z(2));
    assert_eq!(
        image,
        fermions(&[(&[], &[], 1.0, 0.0), (&[2], &[2], -2.0, 0.0)])
    );
}

#[test]
fn jordan_wigner_of_decoherence_products() {
    let image = jordan_wigner_product(&DecoherenceProduct::new().x(0));
    assert_eq!(
        image,
        fermions(&[(&[0], &[], 1.0, 0.0), (&[], &[0], 1.0, 0.0)])
    );
    // iY = i * i (c0 - a0) = a0 - c0
    let image = jordan_wigner_product(&DecoherenceProduct::new().iy(0));
    assert_eq!(
        image,
        fermions(&[(&[0], &[], -1.0, 0.0), (&[], &[0], 1.0, 0.0)])
    );
    let image = jordan_wigner_product(&DecoherenceProduct::new().z(1));
    assert_eq!(
        image,
        fermions(&[(&[], &[], 1.0, 0.0), (&[1], &[1], -2.0, 0.0)])
    );
}

#[test]
fn jordan_wigner_of_noise() {
    let mut noise = SpinLindbladNoiseOperator::new();
    noise
        .add_operator_product(
            (DecoherenceProduct::new().iy(0), DecoherenceProduct::new().x(0)),
            CalculatorComplex::new(3.0, 0.0),
        )
        .unwrap();
    let image = jordan_wigner_noise(&noise);
    assert_eq!(image.len(), 4);
    assert_eq!(
        image,
        fermion_pairs(&[
            ((&[0], &[]), (&[0], &[]), -3.0),
            ((&[0], &[]), (&[], &[0]), -3.0),
            ((&[], &[0]), (&[0], &[]), 3.0),
            ((&[], &[0]), (&[], &[0]), 3.0),
        ])
    );

    // the coefficient of the right operator is conjugated
    let mut noise = SpinLindbladNoiseOperator::new();
    noise
        .add_operator_product(
            (DecoherenceProduct::new().z(0), DecoherenceProduct::new()),
            CalculatorComplex::new(0.0, 1.0),
        )
        .unwrap();
    let image = jordan_wigner_noise(&noise);
    assert_eq!(image.len(), 2);
    let unit = FermionProduct::new(&[], &[]).unwrap();
    let count = FermionProduct::new(&[0], &[0]).unwrap();
    assert_eq!(
        image.get(&(unit.clone(), unit.clone())),
        CalculatorComplex::new(0.0, 1.0)
    );
    assert_eq!(
        image.get(&(count, unit)),
        CalculatorComplex::new(0.0, -2.0)
    );
}

#[test]
fn add_noise_from_full_operators_conjugates_the_right_operator() {
    let left = fermions(&[(&[0], &[], 2.0, 0.0)]);
    let right = fermions(&[(&[], &[1], 0.0, 1.0), (&[1], &[1], 1.0, 0.0)]);
    let mut noise = FermionLindbladNoiseOperator::new();
    noise.add_noise_from_full_operators(&left, &right, &CalculatorComplex::new(0.5, 0.0));
    assert_eq!(noise.len(), 2);
    let c0 = FermionProduct::new(&[0], &[]).unwrap();
    let a1 = FermionProduct::new(&[], &[1]).unwrap();
    let n1 = FermionProduct::new(&[1], &[1]).unwrap();
    // 0.5 * 2 * conj(i) = -i
    assert_eq!(
        noise.get(&(c0.clone(), a1)),
        CalculatorComplex::new(0.0, -1.0)
    );
    assert_eq!(noise.get(&(c0, n1)), CalculatorComplex::new(1.0, 0.0));
}

#[test]
fn jordan_wigner_of_noise_systems_keeps_the_number() {
    let mut noise = SpinLindbladNoiseSystem::new(Some(4));
    noise
        .add_operator_product(
            (DecoherenceProduct::new().x(1), DecoherenceProduct::new().z(2)),
            CalculatorComplex::new(1.0, 0.0),
        )
        .unwrap();
    let image = jordan_wigner_noise_system(&noise);
    assert_eq!(image.number_modes(), 4);
    assert_eq!(image.current_number_modes(), 3);
    // (c1 + a1 + 2 c0 c1 a0 - 2 c0 a0 a1) paired with (1 - 2 n2)
    assert_eq!(image.len(), 8);
}

#[test]
fn fermion_hamiltonian_keeps_one_of_a_product_and_its_adjoint() {
    let operator = fermions(&[
        (&[0], &[1], 0.5, 0.25),
        (&[1], &[0], 0.5, -0.25),
        (&[2], &[2], 3.0, 0.0),
    ]);
    let hamiltonian = fermion_hamiltonian(&operator).unwrap();
    assert_eq!(hamiltonian.len(), 2);
    assert_eq!(
        hamiltonian.get(&HermitianFermionProduct::new(&[0], &[1]).unwrap()),
        CalculatorComplex::new(0.5, 0.25)
    );
    assert_eq!(
        hamiltonian.get(&HermitianFermionProduct::new(&[2], &[2]).unwrap()),
        CalculatorComplex::new(3.0, 0.0)
    );
    assert!(HermitianFermionProduct::new(&[1], &[0]).is_err());

    // a product that is its own adjoint needs a real coefficient
    let operator = fermions(&[(&[2], &[2], 3.0, 1.0)]);
    assert_eq!(
        fermion_hamiltonian(&operator),
        Err(StruqtureError::NonHermitianOperator)
    );
}

#[test]
fn jordan_wigner_of_hamiltonians() {
    let mut spins = SpinHamiltonian::new();
    spins
        .add_operator_product(PauliProduct::new().z(0), CalculatorComplex::new(0.5, 0.0))
        .unwrap();
    spins
        .add_operator_product(PauliProduct::new().x(1), CalculatorComplex::new(1.5, 0.0))
        .unwrap();
    let image = jordan_wigner_hamiltonian(&spins).unwrap();
    // 0.5 (1 - 2 n0) + 1.5 (1 - 2 n0) (c1 + a1): of each product and its
    // adjoint one is kept
    assert_eq!(image.len(), 4);
    assert_eq!(
        image.get(&HermitianFermionProduct::new(&[], &[]).unwrap()),
        CalculatorComplex::new(0.5, 0.0)
    );
    assert_eq!(
        image.get(&HermitianFermionProduct::new(&[0], &[0]).unwrap()),
        CalculatorComplex::new(-1.0, 0.0)
    );
    let full = jordan_wigner(&spins);
    assert_eq!(full.len(), 6);
    for key in image.keys() {
        let product =
            FermionProduct::new(key.creators().as_slice(), key.annihilators().as_slice()).unwrap();
        assert_eq!(image.get(&key), full.get(&product));
    }
}

#[test]
fn jordan_wigner_of_open_systems() {
    let mut open = SpinLindbladOpenSystem::new(Some(3));
    open.system_add_operator_product(PauliProduct::new().z(1), CalculatorComplex::new(2.0, 0.0))
        .unwrap();
    open.noise_add_operator_product(
        (DecoherenceProduct::new().x(0), DecoherenceProduct::new().x(0)),
        CalculatorComplex::new(0.5, 0.0),
    )
    .unwrap();
    let image = jordan_wigner_open_system(&open).unwrap();
    assert_eq!(image.number_modes(), 3);
    assert_eq!(image.current_number_modes(), 2);
    assert_eq!(image.system().len(), 2);
    assert_eq!(
        image
            .system()
            .get(&HermitianFermionProduct::new(&[1], &[1]).unwrap()),
        CalculatorComplex::new(-4.0, 0.0)
    );
    assert_eq!(image.noise().len(), 4);
    let c0 = FermionProduct::new(&[0], &[]).unwrap();
    let a0 = FermionProduct::new(&[], &[0]).unwrap();
    assert_eq!(
        image.noise().get(&(c0, a0)),
        CalculatorComplex::new(0.5, 0.0)
    );

    let empty = SpinLindbladOpenSystem::new(None);
    let image = jordan_wigner_open_system(&empty).unwrap();
    assert!(image.system().is_empty());
    assert!(image.noise().is_empty());
}
