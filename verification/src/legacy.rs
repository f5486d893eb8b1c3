//! Reading documents of the other schema generation.
//!
//! Such a document is a JSON object. Its member `items` is an array with
//! one array for each term: the text of the product, or of both products of
//! a noise term, followed by the coefficient, which is one real value or a
//! real and an imaginary part. A real value is a number or the text of a
//! symbolic expression. The JSON itself is read by `serde_json`.

use crate::coefficient::{coeff_from_parts, coeff_of_parts};
use qoqo_calculator::CalculatorComplex;
use qoqo_calculator::CalculatorFloat;
use vstd::prelude::*;

verus! {

/// `serde_json::Value`, opaque to the verifier.
#[verifier::external_type_specification]
#[verifier::external_body]
pub struct ExJsonValue(serde_json::Value);

/// `serde_json::Error`, opaque to the verifier.
#[verifier::external_type_specification]
#[verifier::external_body]
pub struct ExJsonError(serde_json::Error);

/// The value that `serde_json::from_str` reads from a text, where the text
/// is JSON.
pub uninterp spec fn json_document(text: Seq<char>) -> Option<serde_json::Value>;

/// The member of a JSON object with the given name, as `Value::get` finds it.
pub uninterp spec fn json_member(value: serde_json::Value, name: Seq<char>) -> Option<
    serde_json::Value,
>;

/// The elements of a JSON array, as `Value::as_array` gives them.
pub uninterp spec fn json_elements(value: serde_json::Value) -> Option<Seq<serde_json::Value>>;

/// The text of a JSON string, as `Value::as_str` gives it.
pub uninterp spec fn json_text(value: serde_json::Value) -> Option<Seq<char>>;

/// The real value that `serde_json::from_value` reads from a JSON number
/// or string.
pub uninterp spec fn json_real(value: serde_json::Value) -> Option<CalculatorFloat>;

/// Reads a text as JSON.
///
/// Calls `serde_json::from_str` for a `Value`. The contract names the value
/// that comes back, and says that an error comes back where there is none.
#[verifier::external_body]
pub(crate) fn parse_json(input: &str) -> (r: Result<serde_json::Value, serde_json::Error>)
    ensures
        match r {
            Ok(value) => json_document(input@) == Some(value),
            Err(_) => json_document(input@).is_none(),
        },
{
    serde_json::from_str::<serde_json::Value>(input)
}

/// The member of a JSON object with the given name.
///
/// Calls `Value::get` with the name, which finds nothing where the value is
/// no object or has no such member. The contract names the result.
#[verifier::external_body]
pub(crate) fn member_of(value: &serde_json::Value, name: &str) -> (r: Option<serde_json::Value>)
    ensures
        r == json_member(*value, name@),
{
    value.get(name).cloned()
}

/// The elements of a JSON array.
///
/// Calls `Value::as_array`, which gives nothing where the value is no
/// array. The contract names the result.
#[verifier::external_body]
pub(crate) fn elements_of(value: &serde_json::Value) -> (r: Option<Vec<serde_json::Value>>)
    ensures
        match r {
            Some(elements) => json_elements(*value) == Some(elements@),
            None => json_elements(*value).is_none(),
        },
{
    value.as_array().cloned()
}

/// The text of a JSON string.
///
/// Calls `Value::as_str`, which gives nothing where the value is no string.
/// The contract names the result.
#[verifier::external_body]
pub(crate) fn text_of(value: &serde_json::Value) -> (r: Option<String>)
    ensures
        match r {
            Some(text) => json_text(*value) == Some(text@),
            None => json_text(*value).is_none(),
        },
{
    match value.as_str() {
        Some(text) => Some(text.to_owned()),
        None => None,
    }
}

/// The real value of a JSON number or string.
///
/// Calls `serde_json::from_value` for a `CalculatorFloat`, which reads a
/// number as a float literal and a string as a float literal or a symbolic
/// expression. The contract names the result.
#[verifier::external_body]
pub(crate) fn real_of(value: &serde_json::Value) -> (r: Option<CalculatorFloat>)
    ensures
        r == json_real(*value),
{
    match serde_json::from_value::<CalculatorFloat>(value.clone()) {
        Ok(number) => Some(number),
        Err(_) => None,
    }
}

/// The terms of a document: the elements of its member `items`.
pub open spec fn document_items(text: Seq<char>) -> Option<Seq<serde_json::Value>> {
    match json_document(text) {
        None => None,
        Some(document) => match json_member(document, "items"@) {
            None => None,
            Some(items) => json_elements(items),
        },
    }
}

/// The noise term that a JSON value describes: an array of the texts of two
/// products, a real part and an imaginary part.
pub open spec fn noise_item(value: serde_json::Value) -> Option<
    (Seq<char>, Seq<char>, CalculatorComplex),
> {
    match json_elements(value) {
        None => None,
        Some(parts) => if parts.len() == 4 && json_text(parts[0]).is_some() && json_text(
            parts[1],
        ).is_some() && json_real(parts[2]).is_some() && json_real(parts[3]).is_some() {
            Some(
                (
                    json_text(parts[0]).unwrap(),
                    json_text(parts[1]).unwrap(),
                    coeff_of_parts(json_real(parts[2]).unwrap(), json_real(parts[3]).unwrap()),
                ),
            )
        } else {
            None
        },
    }
}

/// The term of a Hamiltonian that a JSON value describes: an array of the
/// text of a product and a real coefficient.
pub open spec fn hamiltonian_item(value: serde_json::Value) -> Option<(Seq<char>, CalculatorFloat)> {
    match json_elements(value) {
        None => None,
        Some(parts) => if parts.len() == 2 && json_text(parts[0]).is_some() && json_real(
            parts[1],
        ).is_some() {
            Some((json_text(parts[0]).unwrap(), json_real(parts[1]).unwrap()))
        } else {
            None
        },
    }
}

/// The noise terms of a document, where each of its items describes one.
pub open spec fn document_noise_items(text: Seq<char>) -> Option<
    Seq<(Seq<char>, Seq<char>, CalculatorComplex)>,
> {
    match document_items(text) {
        None => None,
        Some(items) => if forall|i: int| 0 <= i < items.len() ==> noise_item(#[trigger] items[i]).is_some() {
            Some(Seq::new(items.len(), |i: int| noise_item(items[i]).unwrap()))
        } else {
            None
        },
    }
}

/// The terms of the Hamiltonian of a document, where each of its items
/// describes one.
pub open spec fn document_hamiltonian_items(text: Seq<char>) -> Option<
    Seq<(Seq<char>, CalculatorFloat)>,
> {
    match document_items(text) {
        None => None,
        Some(items) => if forall|i: int|
            0 <= i < items.len() ==> hamiltonian_item(#[trigger] items[i]).is_some() {
            Some(Seq::new(items.len(), |i: int| hamiltonian_item(items[i]).unwrap()))
        } else {
            None
        },
    }
}

/// The noise terms that a row of items in memory describes.
pub open spec fn noise_items_view(items: Seq<(String, String, CalculatorComplex)>) -> Seq<
    (Seq<char>, Seq<char>, CalculatorComplex),
> {
    Seq::new(items.len(), |i: int| (items[i].0@, items[i].1@, items[i].2))
}

/// The terms of a Hamiltonian that a row of items in memory describes.
pub open spec fn hamiltonian_items_view(items: Seq<(String, CalculatorFloat)>) -> Seq<
    (Seq<char>, CalculatorFloat),
> {
    Seq::new(items.len(), |i: int| (items[i].0@, items[i].1))
}

/// Reads the items of a document.
pub fn read_items(input: &str) -> (r: Option<Vec<serde_json::Value>>)
    ensures
        match r {
            Some(items) => document_items(input@) == Some(items@),
            None => document_items(input@).is_none(),
        },
{
    let document = match parse_json(input) {
        Ok(document) => document,
        Err(_) => {
            return None;
        },
    };
    let items = match member_of(&document, "items") {
        Some(items) => items,
        None => {
            return None;
        },
    };
    elements_of(&items)
}

/// Reads a JSON value as a noise term.
pub fn read_noise_item(value: &serde_json::Value) -> (r: Option<(String, String, CalculatorComplex)>)
    ensures
        match r {
            Some(item) => noise_item(*value) == Some((item.0@, item.1@, item.2)),
            None => noise_item(*value).is_none(),
        },
{
    let parts = match elements_of(value) {
        Some(parts) => parts,
        None => {
            return None;
        },
    };
    if parts.len() != 4 {
        return None;
    }
    let left = match text_of(&parts[0]) {
        Some(text) => text,
        None => {
            return None;
        },
    };
    let right = match text_of(&parts[1]) {
        Some(text) => text,
        None => {
            return None;
        },
    };
    let re = match real_of(&parts[2]) {
        Some(number) => number,
        None => {
            return None;
        },
    };
    let im = match real_of(&parts[3]) {
        Some(number) => number,
        None => {
            return None;
        },
    };
    Some((left, right, coeff_from_parts(&re, &im)))
}

/// Reads a JSON value as a term of a Hamiltonian.
pub fn read_hamiltonian_item(value: &serde_json::Value) -> (r: Option<(String, CalculatorFloat)>)
    ensures
        match r {
            Some(item) => hamiltonian_item(*value) == Some((item.0@, item.1)),
            None => hamiltonian_item(*value).is_none(),
        },
{
    let parts = match elements_of(value) {
        Some(parts) => parts,
        None => {
            return None;
        },
    };
    if parts.len() != 2 {
        return None;
    }
    let key = match text_of(&parts[0]) {
        Some(text) => text,
        None => {
            return None;
        },
    };
    match real_of(&parts[1]) {
        Some(number) => Some((key, number)),
        None => None,
    }
}

/// Reads the noise terms of a document.
pub fn read_noise_items(input: &str) -> (r: Option<Vec<(String, String, CalculatorComplex)>>)
    ensures
        match r {
            Some(items) => document_noise_items(input@) == Some(noise_items_view(items@)),
            None => document_noise_items(input@).is_none(),
        },
{
    let values = match read_items(input) {
        Some(values) => values,
        None => {
            return None;
        },
    };
    let mut items: Vec<(String, String, CalculatorComplex)> = Vec::new();
    let mut i: usize = 0;
    while i < values.len()
        invariant
            i <= values.len(),
            document_items(input@) == Some(values@),
            items@.len() == i,
            forall|k: int|
                0 <= k < i ==> noise_item(#[trigger] values@[k]) == Some(
                    (items@[k].0@, items@[k].1@, items@[k].2),
                ),
        decreases values.len() - i,
    {
        match read_noise_item(&values[i]) {
            Some(item) => {
                items.push(item);
            },
            None => {
                assert(noise_item(values@[i as int]).is_none());
                return None;
            },
        }
        i += 1;
    }
    proof {
        assert(document_noise_items(input@).unwrap() =~= noise_items_view(items@));
    }
    Some(items)
}

/// Reads the terms of the Hamiltonian of a document.
pub fn read_hamiltonian_items(input: &str) -> (r: Option<Vec<(String, CalculatorFloat)>>)
    ensures
        match r {
            Some(items) => document_hamiltonian_items(input@) == Some(
                hamiltonian_items_view(items@),
            ),
            None => document_hamiltonian_items(input@).is_none(),
        },
{
    let values = match read_items(input) {
        Some(values) => values,
        None => {
            return None;
        },
    };
    let mut items: Vec<(String, CalculatorFloat)> = Vec::new();
    let mut i: usize = 0;
    while i < values.len()
        invariant
            i <= values.len(),
            document_items(input@) == Some(values@),
            items@.len() == i,
            forall|k: int|
                0 <= k < i ==> hamiltonian_item(#[trigger] values@[k]) == Some(
                    (items@[k].0@, items@[k].1),
                ),
        decreases values.len() - i,
    {
        match read_hamiltonian_item(&values[i]) {
            Some(item) => {
                items.push(item);
            },
            None => {
                assert(hamiltonian_item(values@[i as int]).is_none());
                return None;
            },
        }
        i += 1;
    }
    proof {
        assert(document_hamiltonian_items(input@).unwrap() =~= hamiltonian_items_view(items@));
    }
    Some(items)
}

} // verus!
