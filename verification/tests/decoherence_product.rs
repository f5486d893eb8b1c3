//! Tests of products of the operators X, iY and Z, of their text, and of
//! the forms of the noise operators that they label.

use qoqo_calculator::{CalculatorComplex, CalculatorFloat};
use struqture::encoding::{product_from_json, product_to_json, StruqtureVersion};
use struqture::error::StruqtureError;
use struqture::spins::decoherence_product::{narrow_text, widen_text};
use struqture::spins::{
    DecoherenceProduct, PauliProduct, SingleDecoherenceOperator, SpinLindbladNoiseOperator,
    SpinLindbladNoiseSystem, SpinLindbladOpenSystem,
};

fn current() -> StruqtureVersion {
    StruqtureVersion {
        major_version: 1,
        minor_version: 0,
    }
}

#[test]
fn decoherence_product_to_string() {
    assert_eq!(DecoherenceProduct::new().to_string(), "I");
    assert_eq!(DecoherenceProduct::new().x(0).to_string(), "0X");
    assert_eq!(DecoherenceProduct::new().iy(3).to_string(), "3iY");
    assert_eq!(
        DecoherenceProduct::new().z(12).iy(1).x(0).to_string(),
        "0X1iY12Z"
    );
}

#[test]
fn decoherence_product_from_str() {
    assert_eq!(
        DecoherenceProduct::from_str("I"),
        Ok(DecoherenceProduct::new())
    );
    // a text without characters names the product of nothing too
    assert_eq!(
        DecoherenceProduct::from_str(""),
        Ok(DecoherenceProduct::new())
    );
    assert_eq!(
        DecoherenceProduct::from_str("0X1iY12Z"),
        Ok(DecoherenceProduct::new().x(0).iy(1).z(12))
    );
    // the order of the text does not matter
    assert_eq!(
        DecoherenceProduct::from_str("12Z1iY0X"),
        Ok(DecoherenceProduct::new().x(0).iy(1).z(12))
    );
    let product = DecoherenceProduct::from_str("2iY").unwrap();
    assert_eq!(product.get(2), Some(SingleDecoherenceOperator::IY));
    assert_eq!(product.get(1), None);
}

#[test]
fn decoherence_product_from_str_errors() {
    // Y stands only behind i
    assert_eq!(
        DecoherenceProduct::from_str("0Y"),
        Err(StruqtureError::ParseMismatch)
    );
    assert_eq!(
        DecoherenceProduct::from_str("0i"),
        Err(StruqtureError::ParseMismatch)
    );
    assert_eq!(
        DecoherenceProduct::from_str("0iX"),
        Err(StruqtureError::ParseMismatch)
    );
    assert_eq!(
        DecoherenceProduct::from_str("0A"),
        Err(StruqtureError::ParseMismatch)
    );
    assert_eq!(
        DecoherenceProduct::from_str("X"),
        Err(StruqtureError::ParseMismatch)
    );
    // two operators for one site
    assert_eq!(
        DecoherenceProduct::from_str("0X0iY"),
        Err(StruqtureError::InvalidIndex)
    );
}

#[test]
fn decoherence_text_round_trip() {
    for product in [
        DecoherenceProduct::new(),
        DecoherenceProduct::new().iy(0),
        DecoherenceProduct::new().iy(0).iy(1).iy(2),
        DecoherenceProduct::new().x(7).z(100).iy(1000),
    ] {
        let text = product.to_string();
        assert_eq!(DecoherenceProduct::from_str(&text), Ok(product.clone()));
        let json = product_to_json(&product).unwrap();
        assert_eq!(product_from_json::<DecoherenceProduct>(&json), Ok(product));
    }
    // the text of a product with iY names no Pauli product
    assert!(product_from_json::<PauliProduct>("\"0iY\"").is_err());
}

#[test]
fn widen_and_narrow_texts() {
    assert_eq!(widen_text("0X1Y2Z"), "0X1iY2Z");
    assert_eq!(widen_text("YY"), "iYiY");
    assert_eq!(widen_text(""), "");
    assert_eq!(narrow_text("0X1iY2Z"), Some("0X1Y2Z".to_string()));
    assert_eq!(narrow_text("iYiY"), Some("YY".to_string()));
    assert_eq!(narrow_text(""), Some(String::new()));
    assert_eq!(narrow_text("0Y"), None);
    assert_eq!(narrow_text("0i"), None);
    assert_eq!(narrow_text("iiY"), None);
}

fn noise() -> SpinLindbladNoiseOperator {
    let mut noise = SpinLindbladNoiseOperator::new();
    noise
        .set(
            (
                DecoherenceProduct::new().x(0),
                DecoherenceProduct::new().iy(1).z(2),
            ),
            CalculatorComplex::new(1.0, 0.5),
        )
        .unwrap();
    noise
}

#[test]
fn spin_noise_operator_to_string() {
    assert_eq!(
        noise().to_string(),
        "SpinLindbladNoiseOperator{\n(0X, 1iY2Z): (1e0 + i * 5e-1),\n}"
    );
}

#[test]
fn spin_noise_system_readable_and_binary_forms() {
    let system = SpinLindbladNoiseSystem::from_operator(noise(), Some(3)).unwrap();
    let readable = system.readable(current());
    assert_eq!(readable.number, Some(3));
    assert_eq!(
        readable.operator.items,
        vec![(
            vec!["0X".to_string(), "1iY2Z".to_string()],
            CalculatorFloat::from(1.0),
            CalculatorFloat::from(0.5)
        )]
    );
    assert_eq!(
        SpinLindbladNoiseSystem::from_readable(&readable, current()),
        Ok(system.clone())
    );
    let bytes = system.to_bincode(current()).unwrap();
    assert_eq!(
        SpinLindbladNoiseSystem::from_bincode(&bytes, current()),
        Ok(system)
    );
}

#[test]
fn spin_open_system_binary_round_trip() {
    let mut open = SpinLindbladOpenSystem::new(Some(4));
    open.system_add_operator_product(PauliProduct::new().x(0).z(3), CalculatorComplex::from(0.5))
        .unwrap();
    open.noise_add_operator_product(
        (
            DecoherenceProduct::new().iy(2),
            DecoherenceProduct::new().iy(2),
        ),
        CalculatorComplex::from(0.25),
    )
    .unwrap();
    let bytes = open.to_bincode(current()).unwrap();
    assert_eq!(
        SpinLindbladOpenSystem::from_bincode(&bytes, current()),
        Ok(open.clone())
    );
    assert_eq!(
        SpinLindbladOpenSystem::from_bincode(&bytes[..bytes.len() - 1], current()),
        Err(StruqtureError::DecodeError)
    );
    let (system, noise) = open.readable(current());
    assert_eq!(
        SpinLindbladOpenSystem::from_readable(&system, &noise, current()),
        Ok(open)
    );
}
