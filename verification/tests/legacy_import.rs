//! Tests of the import of documents of the other schema generation.

use qoqo_calculator::{CalculatorComplex, CalculatorFloat};
use struqture::error::StruqtureError;
use struqture::spins::{
    PauliProduct, PlusMinusLindbladNoiseOperatorWrapper, PlusMinusProduct,
    SpinHamiltonianSystemWrapper,
};

#[test]
fn noise_operator_from_json_struqture_2() {
    let input = "{\"items\":[[\"0+\",\"0-\",1.0,0.0],[\"0Z1+\",\"0Z\",\"a\",2.5]],\
        \"serialisation_meta\":{\"type_name\":\"PlusMinusLindbladNoiseOperator\",\
        \"min_version\":[2,0,0],\"version\":\"2.0.0\"}}";
    let wrapper =
        PlusMinusLindbladNoiseOperatorWrapper::from_json_struqture_2(input.to_string()).unwrap();
    assert_eq!(wrapper.internal.len(), 2);
    assert_eq!(
        wrapper.internal.get(&(
            PlusMinusProduct::new().plus(0),
            PlusMinusProduct::new().minus(0)
        )),
        CalculatorComplex::new(1.0, 0.0)
    );
    assert_eq!(
        wrapper.internal.get(&(
            PlusMinusProduct::new().z(0).plus(1),
            PlusMinusProduct::new().z(0)
        )),
        CalculatorComplex::new("a", 2.5)
    );
}

#[test]
fn noise_operator_from_json_struqture_2_errors() {
    // no JSON at all
    assert_eq!(
        PlusMinusLindbladNoiseOperatorWrapper::from_json_struqture_2("fails".to_string()),
        Err(StruqtureError::LegacyImportError)
    );
    // no items
    assert_eq!(
        PlusMinusLindbladNoiseOperatorWrapper::from_json_struqture_2("{\"terms\":[]}".to_string()),
        Err(StruqtureError::LegacyImportError)
    );
    // items is no array
    assert_eq!(
        PlusMinusLindbladNoiseOperatorWrapper::from_json_struqture_2("{\"items\":3}".to_string()),
        Err(StruqtureError::LegacyImportError)
    );
    // an item with too few parts
    assert_eq!(
        PlusMinusLindbladNoiseOperatorWrapper::from_json_struqture_2(
            "{\"items\":[[\"0+\",1.0,0.0]]}".to_string()
        ),
        Err(StruqtureError::LegacyImportError)
    );
    // a key that names no product
    assert_eq!(
        PlusMinusLindbladNoiseOperatorWrapper::from_json_struqture_2(
            "{\"items\":[[\"0+\",\"0X\",1.0,0.0]]}".to_string()
        ),
        Err(StruqtureError::LegacyImportError)
    );
    // a coefficient that is no number
    assert_eq!(
        PlusMinusLindbladNoiseOperatorWrapper::from_json_struqture_2(
            "{\"items\":[[\"0+\",\"0-\",[1.0],0.0]]}".to_string()
        ),
        Err(StruqtureError::LegacyImportError)
    );
    // nothing in it
    let empty =
        PlusMinusLindbladNoiseOperatorWrapper::from_json_struqture_2("{\"items\":[]}".to_string())
            .unwrap();
    assert!(empty.internal.is_empty());
}

#[test]
fn noise_operator_from_struqture_2_items() {
    let items = vec![
        ("0+".to_string(), "1-".to_string(), CalculatorComplex::from(1.0)),
        ("0+".to_string(), "1Z".to_string(), CalculatorComplex::from(2.0)),
        // replaces the first
        ("0+".to_string(), "1-".to_string(), CalculatorComplex::from(3.0)),
        // takes the second out
        ("0+".to_string(), "1Z".to_string(), CalculatorComplex::from(0.0)),
    ];
    let wrapper = PlusMinusLindbladNoiseOperatorWrapper::from_struqture_2_items(&items).unwrap();
    assert_eq!(wrapper.internal.len(), 1);
    assert_eq!(
        wrapper.internal.get(&(
            PlusMinusProduct::new().plus(0),
            PlusMinusProduct::new().minus(1)
        )),
        CalculatorComplex::from(3.0)
    );
    let bad = vec![("0+".to_string(), "1".to_string(), CalculatorComplex::from(1.0))];
    assert_eq!(
        PlusMinusLindbladNoiseOperatorWrapper::from_struqture_2_items(&bad),
        Err(StruqtureError::LegacyImportError)
    );
}

#[test]
fn spin_hamiltonian_from_json_struqture_2() {
    let input = "{\"items\":[[\"0Z\",1.5],[\"0X1X\",\"g\"]],\
        \"serialisation_meta\":{\"type_name\":\"PauliHamiltonian\",\
        \"min_version\":[2,0,0],\"version\":\"2.0.0\"}}";
    let wrapper = SpinHamiltonianSystemWrapper::from_json_struqture_2(input.to_string()).unwrap();
    assert_eq!(wrapper.internal.len(), 2);
    assert_eq!(wrapper.internal.number_modes(), 2);
    assert_eq!(
        wrapper.internal.get(&PauliProduct::new().z(0)),
        CalculatorComplex::from(1.5)
    );
    assert_eq!(
        wrapper.internal.get(&PauliProduct::new().x(0).x(1)),
        CalculatorComplex::from("g")
    );
}

#[test]
fn spin_hamiltonian_from_json_struqture_2_errors() {
    assert_eq!(
        SpinHamiltonianSystemWrapper::from_json_struqture_2("[1, 2".to_string()),
        Err(StruqtureError::LegacyImportError)
    );
    assert_eq!(
        SpinHamiltonianSystemWrapper::from_json_struqture_2(
            "{\"items\":[[\"0J\",1.0]]}".to_string()
        ),
        Err(StruqtureError::LegacyImportError)
    );
    assert_eq!(
        SpinHamiltonianSystemWrapper::from_json_struqture_2(
            "{\"items\":[[\"0Z\",1.0,2.0]]}".to_string()
        ),
        Err(StruqtureError::LegacyImportError)
    );
}

#[test]
fn spin_hamiltonian_from_struqture_2_items() {
    let items = vec![
        ("0Z".to_string(), CalculatorFloat::from(1.0)),
        ("I".to_string(), CalculatorFloat::from(-2.0)),
    ];
    let wrapper = SpinHamiltonianSystemWrapper::from_struqture_2_items(&items).unwrap();
    assert_eq!(wrapper.internal.len(), 2);
    assert_eq!(
        wrapper.internal.get(&PauliProduct::new()),
        CalculatorComplex::from(-2.0)
    );
}
