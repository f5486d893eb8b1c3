//! Structured and binary forms of operators and systems.
//!
//! The readable form of an operator is a row of items, each with the texts
//! of the key of a term and the real and the imaginary part of its
//! coefficient, together with the version of the schema that wrote it. A
//! system adds its declared number of sites or modes. The binary form is
//! the readable form as `bincode` writes it.

use crate::coefficient::{
    coeff_from_parts, coeff_im, coeff_imaginary_part, coeff_of_parts, coeff_re, coeff_real_part,
    coeff_vanishes,
};
use crate::error::StruqtureError;
use crate::key::{texts_view, ConjugateKey, OperatorKey, SingleTextKey, TextKey};
use crate::legacy::{json_document, json_text, parse_json, text_of};
use crate::open_system::{common_number, OpenSystem};
use crate::operator::{SelfAdjoint, Unrestricted};
use crate::operator::{
    distinct_keys, lemma_terms_map_take, takes, terms_map, with_term, CoefficientRule, Operator,
    TermMap,
};
use crate::system::{within_capacity, System};
use qoqo_calculator::CalculatorComplex;
use qoqo_calculator::CalculatorFloat;
use vstd::prelude::*;

verus! {

/// The version of the schema of a structured form.
#[derive(Clone, Copy, Debug, PartialEq, Eq, Structural)]
pub struct StruqtureVersion {
    pub major_version: u32,
    pub minor_version: u32,
}

impl StruqtureVersion {
    /// Whether a reader of this version can read what a writer of the
    /// given version wrote: the major versions agree, and the writer is
    /// not ahead in the minor version.
    pub open spec fn reads(self, written: StruqtureVersion) -> bool {
        self.major_version == written.major_version && written.minor_version
            <= self.minor_version
    }

    /// Whether a reader of this version can read what a writer of the
    /// given version wrote.
    pub fn can_read(&self, written: &StruqtureVersion) -> (b: bool)
        ensures
            b == self.reads(*written),
    {
        self.major_version == written.major_version && written.minor_version
            <= self.minor_version
    }
}

/// One term in readable form: the texts of its key, and the real and the
/// imaginary part of its coefficient.
pub type ReadableItem = (Vec<String>, CalculatorFloat, CalculatorFloat);

/// The readable form of an operator.
#[derive(Debug, Clone, PartialEq)]
pub struct ReadableOperator {
    /// The terms, in the order in which the operator holds them.
    pub items: Vec<ReadableItem>,
    /// The version of the schema that wrote the form.
    pub version: StruqtureVersion,
}

/// The readable form of a system.
#[derive(Debug, Clone, PartialEq)]
pub struct ReadableSystem {
    /// The declared number of sites or modes.
    pub number: Option<usize>,
    /// The terms of the system.
    pub operator: ReadableOperator,
}

/// The content of an item: the texts of its key and the parts of its
/// coefficient.
pub type ItemView = (Seq<Seq<char>>, CalculatorFloat, CalculatorFloat);

/// The contents of a row of items.
pub open spec fn items_view(items: Seq<ReadableItem>) -> Seq<ItemView> {
    Seq::new(items.len(), |i: int| (texts_view(items[i].0@), items[i].1, items[i].2))
}

/// Whether a row of items is the readable form of a row of terms: each
/// item has the texts of the key of its term and the parts of its
/// coefficient, which make up the coefficient.
pub open spec fn represents<K: TextKey>(
    items: Seq<ItemView>,
    terms: Seq<(K::V, CalculatorComplex)>,
) -> bool {
    &&& items.len() == terms.len()
    &&& forall|i: int|
        0 <= i < items.len() ==> (#[trigger] items[i]).0 == K::texts(terms[i].0) && items[i].1
            == coeff_re(terms[i].1) && items[i].2 == coeff_im(terms[i].1) && terms[i].1
            == coeff_of_parts(items[i].1, items[i].2)
}

/// The readable form of a row of terms: for each term the texts of its
/// key and the parts of its coefficient.
pub open spec fn readable_items<K: TextKey>(terms: Seq<(K::V, CalculatorComplex)>) -> Seq<ItemView> {
    Seq::new(
        terms.len(),
        |i: int| (K::texts(terms[i].0), coeff_re(terms[i].1), coeff_im(terms[i].1)),
    )
}

/// A row of terms has one readable form.
pub proof fn lemma_represents_items<K: TextKey>(
    items: Seq<ItemView>,
    terms: Seq<(K::V, CalculatorComplex)>,
)
    requires
        represents::<K>(items, terms),
    ensures
        items == readable_items::<K>(terms),
{
    assert forall|i: int| 0 <= i < items.len() implies items[i] == readable_items::<K>(terms)[i] by {
        assert(items[i].0 == K::texts(terms[i].0));
    }
    assert(items =~= readable_items::<K>(terms));
}

/// The operator that a row of items describes: the key of each item is
/// read from its texts, and its coefficient is set for the key. There is
/// none where the texts of an item name no key, or the rule `R` does not
/// admit its coefficient.
pub open spec fn decoded_terms<K: TextKey, R: CoefficientRule<K>>(items: Seq<ItemView>) -> Option<
    TermMap<K::V>,
>
    decreases items.len(),
{
    if items.len() == 0 {
        Some(Map::empty())
    } else {
        match decoded_terms::<K, R>(items.drop_last()) {
            None => None,
            Some(m) => {
                let item = items.last();
                let key = K::of_texts(item.0);
                let value = coeff_of_parts(item.1, item.2);
                if item.0.len() == K::arity() && key.is_some() && takes::<K, R>(key.unwrap(), value) {
                    Some(with_term(m, key.unwrap(), value))
                } else {
                    None
                }
            },
        }
    }
}

/// Where a beginning of a row of items describes no operator, the row
/// describes none.
pub proof fn lemma_decoded_terms_fails<K: TextKey, R: CoefficientRule<K>>(items: Seq<ItemView>, k: int)
    requires
        0 <= k <= items.len(),
        decoded_terms::<K, R>(items.take(k)).is_none(),
    ensures
        decoded_terms::<K, R>(items).is_none(),
    decreases items.len() - k,
{
    if k < items.len() {
        assert(items.take(k + 1).drop_last() =~= items.take(k));
        lemma_decoded_terms_fails::<K, R>(items, k + 1);
    } else {
        assert(items.take(k) =~= items);
    }
}

/// Round trip. The readable form of the terms of an operator describes
/// the operator: reading what was written gives back what was there.
pub proof fn lemma_decoded_represents<K: TextKey, R: CoefficientRule<K>>(
    items: Seq<ItemView>,
    terms: Seq<(K::V, CalculatorComplex)>,
)
    requires
        represents::<K>(items, terms),
        distinct_keys(terms),
        forall|i: int|
            0 <= i < terms.len() ==> K::canonical((#[trigger] terms[i]).0) && !coeff_vanishes(
                terms[i].1,
            ) && takes::<K, R>(terms[i].0, terms[i].1),
    ensures
        decoded_terms::<K, R>(items) == Some(terms_map(terms)),
    decreases items.len(),
{
    if items.len() == 0 {
        assert(terms_map(terms) =~= Map::empty());
    } else {
        let n = terms.len() - 1;
        let head_items = items.drop_last();
        let head_terms = terms.drop_last();
        assert(terms.take(n) =~= head_terms);
        assert(terms.take(n + 1) =~= terms);
        lemma_terms_map_take(terms, n);
        assert(represents::<K>(head_items, head_terms)) by {
            assert forall|i: int| 0 <= i < head_items.len() implies (#[trigger] head_items[i]).0
                == K::texts(head_terms[i].0) && head_items[i].1 == coeff_re(head_terms[i].1)
                && head_items[i].2 == coeff_im(head_terms[i].1) && head_terms[i].1 == coeff_of_parts(
                head_items[i].1,
                head_items[i].2,
            ) by {
                assert(head_items[i] == items[i]);
                assert(head_terms[i] == terms[i]);
            }
        }
        assert forall|i: int| 0 <= i < head_terms.len() implies K::canonical(
            (#[trigger] head_terms[i]).0,
        ) && !coeff_vanishes(head_terms[i].1) && takes::<K, R>(head_terms[i].0, head_terms[i].1) by {
            assert(head_terms[i] == terms[i]);
        }
        lemma_decoded_represents::<K, R>(head_items, head_terms);
        let last = terms[n];
        assert(items[n].0 == K::texts(last.0));
        K::lemma_texts(last.0);
    }
}

impl<K: TextKey, R: CoefficientRule<K>> Operator<K, R> {
    /// The readable form of the operator, as a writer of the given version
    /// writes it.
    pub fn readable(&self, version: StruqtureVersion) -> (r: ReadableOperator)
        ensures
            r.version == version,
            represents::<K>(items_view(r.items@), self.terms()),
    {
        let n = self.len();
        let mut items: Vec<ReadableItem> = Vec::new();
        let mut i: usize = 0;
        while i < n
            invariant
                i <= n,
                n == self.terms().len(),
                items@.len() == i,
                forall|k: int|
                    0 <= k < i ==> texts_view((#[trigger] items@[k]).0@) == K::texts(
                        self.terms()[k].0,
                    ) && items@[k].1 == coeff_re(self.terms()[k].1) && items@[k].2 == coeff_im(
                        self.terms()[k].1,
                    ) && self.terms()[k].1 == coeff_of_parts(items@[k].1, items@[k].2),
            decreases n - i,
        {
            let texts = self.key_at(i).key_texts();
            let re = coeff_real_part(self.value_at(i));
            let im = coeff_imaginary_part(self.value_at(i));
            items.push((texts, re, im));
            i += 1;
        }
        ReadableOperator { items, version }
    }

    /// The operator that a readable form describes, as a reader of the
    /// given version reads it.
    ///
    /// Fails with `DecodeError` where the reader cannot read the version of
    /// the form, the texts of an item name no key, or the coefficient of an
    /// item is not admitted for its key.
    pub fn from_readable(readable: &ReadableOperator, reader: StruqtureVersion) -> (r: Result<
        Self,
        StruqtureError,
    >)
        ensures
            match r {
                Ok(operator) => reader.reads(readable.version) && decoded_terms::<K, R>(
                    items_view(readable.items@),
                ) == Some(operator@),
                Err(e) => e == StruqtureError::DecodeError && !(reader.reads(readable.version)
                    && decoded_terms::<K, R>(items_view(readable.items@)).is_some()),
            },
    {
        if !reader.can_read(&readable.version) {
            return Err(StruqtureError::DecodeError);
        }
        let ghost all = items_view(readable.items@);
        let mut operator: Operator<K, R> = Operator::new();
        let arity = K::key_arity();
        let mut i: usize = 0;
        assert(all.take(0) =~= Seq::empty());
        while i < readable.items.len()
            invariant
                i <= readable.items.len(),
                all == items_view(readable.items@),
                arity == K::arity(),
                decoded_terms::<K, R>(all.take(i as int)) == Some(operator@),
            decreases readable.items.len() - i,
        {
            proof {
                assert(all.take(i + 1).drop_last() =~= all.take(i as int));
                assert(all.take(i + 1).last() == all[i as int]);
            }
            let item = &readable.items[i];
            if item.0.len() != arity {
                proof {
                    lemma_decoded_terms_fails::<K, R>(all, i + 1);
                }
                return Err(StruqtureError::DecodeError);
            }
            assert(texts_view(item.0@).subrange(0, arity as int) =~= texts_view(item.0@));
            let key = match K::key_from_texts(&item.0, 0) {
                Some(key) => key,
                None => {
                    proof {
                        lemma_decoded_terms_fails::<K, R>(all, i + 1);
                    }
                    return Err(StruqtureError::DecodeError);
                },
            };
            let value = coeff_from_parts(&item.1, &item.2);
            match operator.set(key, value) {
                Ok(_) => {},
                Err(_) => {
                    proof {
                        lemma_decoded_terms_fails::<K, R>(all, i + 1);
                    }
                    return Err(StruqtureError::DecodeError);
                },
            }
            i += 1;
        }
        assert(all.take(i as int) =~= all);
        Ok(operator)
    }
}

impl<K: TextKey, R: CoefficientRule<K>> System<K, R> {
    /// The readable form of the system, as a writer of the given version
    /// writes it.
    pub fn readable(&self, version: StruqtureVersion) -> (r: ReadableSystem)
        ensures
            r.number == self.capacity(),
            r.operator.version == version,
            represents::<K>(items_view(r.operator.items@), self.terms()),
    {
        ReadableSystem { number: self.declared_number(), operator: self.operator().readable(version) }
    }

    /// The system that a readable form describes, as a reader of the given
    /// version reads it.
    ///
    /// Fails with `DecodeError` where the reader cannot read the version of
    /// the form, the texts of an item name no key, the coefficient of an
    /// item is not admitted for its key, or a term reaches beyond the
    /// number of sites or modes of the form.
    pub fn from_readable(readable: &ReadableSystem, reader: StruqtureVersion) -> (r: Result<
        Self,
        StruqtureError,
    >)
        ensures
            match r {
                Ok(system) => reader.reads(readable.operator.version) && decoded_terms::<K, R>(
                    items_view(readable.operator.items@),
                ) == Some(system@) && system.capacity() == readable.number && within_capacity::<K>(
                    system@,
                    readable.number,
                ),
                Err(e) => e == StruqtureError::DecodeError && !(reader.reads(
                    readable.operator.version,
                ) && decoded_terms::<K, R>(items_view(readable.operator.items@)).is_some()
                    && within_capacity::<K>(
                    decoded_terms::<K, R>(items_view(readable.operator.items@)).unwrap(),
                    readable.number,
                )),
            },
    {
        let operator = match Operator::<K, R>::from_readable(&readable.operator, reader) {
            Ok(operator) => operator,
            Err(e) => {
                return Err(e);
            },
        };
        match System::from_operator(operator, readable.number) {
            Ok(system) => Ok(system),
            Err(_) => Err(StruqtureError::DecodeError),
        }
    }
}

/// `bincode::ErrorKind`, opaque to the verifier.
#[verifier::external_type_specification]
#[verifier::external_body]
pub struct ExBincodeErrorKind(bincode::ErrorKind);

/// The bytes that `bincode::serialize` writes for the readable form of a
/// system, where it writes any.
pub uninterp spec fn binary_form(number: Option<usize>, items: Seq<ItemView>, major: u32, minor: u32) -> Option<
    Seq<u8>,
>;

/// The readable form of a system that `bincode::deserialize` reads from
/// bytes, where it reads one.
pub uninterp spec fn binary_content(bytes: Seq<u8>) -> Option<
    (Option<usize>, Seq<ItemView>, u32, u32),
>;

/// Writes the readable form of a system as bytes.
///
/// Calls `bincode::serialize` on the number, the items and the version.
/// The contract names the bytes that come back, and says that an error
/// comes back where there are none.
#[verifier::external_body]
pub(crate) fn encode_binary(number: &Option<usize>, items: &Vec<ReadableItem>, major: u32, minor: u32) -> (r:
    Result<Vec<u8>, Box<bincode::ErrorKind>>)
    ensures
        match r {
            Ok(bytes) => binary_form(*number, items_view(items@), major, minor) == Some(bytes@),
            Err(_) => binary_form(*number, items_view(items@), major, minor).is_none(),
        },
{
    bincode::serialize(&(number, items, major, minor))
}

/// Reads the readable form of a system from bytes.
///
/// Calls `bincode::deserialize` for the number, the items and the version.
/// The contract names what comes back, and says that an error comes back
/// where there is nothing.
#[verifier::external_body]
pub(crate) fn decode_binary(bytes: &[u8]) -> (r: Result<
    (Option<usize>, Vec<ReadableItem>, u32, u32),
    Box<bincode::ErrorKind>,
>)
    ensures
        match r {
            Ok(content) => binary_content(bytes@) == Some(
                (content.0, items_view(content.1@), content.2, content.3),
            ),
            Err(_) => binary_content(bytes@).is_none(),
        },
{
    bincode::deserialize::<(Option<usize>, Vec<ReadableItem>, u32, u32)>(bytes)
}

impl ReadableSystem {
    /// The binary form of the readable form.
    ///
    /// Fails with `DecodeError` where `bincode` writes none.
    pub fn to_bincode(&self) -> (r: Result<Vec<u8>, StruqtureError>)
        ensures
            match binary_form(
                self.number,
                items_view(self.operator.items@),
                self.operator.version.major_version,
                self.operator.version.minor_version,
            ) {
                Some(bytes) => r.is_ok() && r.unwrap()@ == bytes,
                None => r == Err::<Vec<u8>, StruqtureError>(StruqtureError::DecodeError),
            },
    {
        match encode_binary(
            &self.number,
            &self.operator.items,
            self.operator.version.major_version,
            self.operator.version.minor_version,
        ) {
            Ok(bytes) => Ok(bytes),
            Err(_) => Err(StruqtureError::DecodeError),
        }
    }

    /// The readable form that bytes are the binary form of.
    ///
    /// Fails with `DecodeError` where the bytes are the binary form of
    /// none: where there are no bytes, too few, or bytes of something else.
    pub fn from_bincode(bytes: &[u8]) -> (r: Result<ReadableSystem, StruqtureError>)
        ensures
            match binary_content(bytes@) {
                Some(content) => r.is_ok() && r.unwrap().number == content.0 && items_view(
                    r.unwrap().operator.items@,
                ) == content.1 && r.unwrap().operator.version == (StruqtureVersion {
                    major_version: content.2,
                    minor_version: content.3,
                }),
                None => r == Err::<ReadableSystem, StruqtureError>(StruqtureError::DecodeError),
            },
    {
        match decode_binary(bytes) {
            Ok(content) => Ok(
                ReadableSystem {
                    number: content.0,
                    operator: ReadableOperator {
                        items: content.1,
                        version: StruqtureVersion {
                            major_version: content.2,
                            minor_version: content.3,
                        },
                    },
                },
            ),
            Err(_) => Err(StruqtureError::DecodeError),
        }
    }
}

/// The binary form of a system with the given number and terms, as a
/// writer of the given version writes it, where there is one.
pub open spec fn system_binary_form<K: TextKey>(
    number: Option<usize>,
    terms: Seq<(K::V, CalculatorComplex)>,
    version: StruqtureVersion,
) -> Option<Seq<u8>> {
    binary_form(number, readable_items::<K>(terms), version.major_version, version.minor_version)
}

impl<K: TextKey, R: CoefficientRule<K>> System<K, R> {
    /// The binary form of the system, as a writer of the given version
    /// writes it.
    ///
    /// Fails with `DecodeError` where `bincode` writes none.
    pub fn to_bincode(&self, version: StruqtureVersion) -> (r: Result<Vec<u8>, StruqtureError>)
        ensures
            match system_binary_form::<K>(self.capacity(), self.terms(), version) {
                Some(bytes) => r.is_ok() && r.unwrap()@ == bytes,
                None => r == Err::<Vec<u8>, StruqtureError>(StruqtureError::DecodeError),
            },
    {
        let readable = self.readable(version);
        proof {
            lemma_represents_items::<K>(items_view(readable.operator.items@), self.terms());
        }
        readable.to_bincode()
    }

    /// The system that bytes are the binary form of, as a reader of the
    /// given version reads it.
    ///
    /// Fails with `DecodeError` where the bytes are the binary form of no
    /// readable form, or of one that describes no system of this kind.
    pub fn from_bincode(bytes: &[u8], reader: StruqtureVersion) -> (r: Result<Self, StruqtureError>)
        ensures
            match binary_content(bytes@) {
                None => r == Err::<Self, StruqtureError>(StruqtureError::DecodeError),
                Some(content) => if reader.reads(
                    StruqtureVersion { major_version: content.2, minor_version: content.3 },
                ) && decoded_terms::<K, R>(content.1).is_some() && within_capacity::<K>(
                    decoded_terms::<K, R>(content.1).unwrap(),
                    content.0,
                ) {
                    r.is_ok() && r.unwrap()@ == decoded_terms::<K, R>(content.1).unwrap()
                        && r.unwrap().capacity() == content.0
                } else {
                    r == Err::<Self, StruqtureError>(StruqtureError::DecodeError)
                },
            },
    {
        match ReadableSystem::from_bincode(bytes) {
            Ok(readable) => System::from_readable(&readable, reader),
            Err(e) => Err(e),
        }
    }
}

/// The eight bytes of a length, the lowest first.
pub open spec fn length_bytes(n: nat) -> Seq<u8> {
    Seq::new(8, |k: int| ((n / pow256(k as nat)) % 256) as u8)
}

/// The power of 256 with the given exponent.
pub open spec fn pow256(k: nat) -> nat
    decreases k,
{
    if k == 0 {
        1
    } else {
        256 * pow256((k - 1) as nat)
    }
}

/// The length that the first `count` of eight bytes stand for, the lowest
/// first.
pub open spec fn length_of(bytes: Seq<u8>, count: nat) -> nat
    decreases count,
{
    if count == 0 {
        0
    } else {
        length_of(bytes, (count - 1) as nat) + bytes[count - 1] as nat * pow256((count - 1) as nat)
    }
}

/// The bytes of two binary forms in one row: the length of the first form
/// in eight bytes, the first form, and the second form.
pub open spec fn framed(first: Seq<u8>, second: Seq<u8>) -> Seq<u8> {
    length_bytes(first.len()) + first + second
}

/// The two binary forms that a row of bytes holds, where it holds two:
/// where it has eight bytes of a length and at least as many bytes after
/// them.
pub open spec fn unframed(bytes: Seq<u8>) -> Option<(Seq<u8>, Seq<u8>)> {
    if bytes.len() < 8 {
        None
    } else {
        let n = length_of(bytes, 8);
        if n > bytes.len() - 8 {
            None
        } else {
            Some((bytes.subrange(8, 8 + n as int), bytes.subrange(8 + n as int, bytes.len() as int)))
        }
    }
}

/// Puts two binary forms in one row.
pub fn frame(first: &Vec<u8>, second: &Vec<u8>) -> (r: Vec<u8>)
    ensures
        r@ == framed(first@, second@),
{
    let mut r: Vec<u8> = Vec::new();
    let n = first.len();
    let mut rest = n;
    let mut k: usize = 0;
    assert(pow256(0) == 1);
    while k < 8
        invariant
            k <= 8,
            n == first@.len(),
            rest as nat == (n as nat) / pow256(k as nat),
            r@.len() == k,
            forall|j: int| 0 <= j < k ==> r@[j] == length_bytes(n as nat)[j],
        decreases 8 - k,
    {
        proof {
            lemma_pow256(k as nat);
            assert((n as nat) / pow256((k + 1) as nat) == ((n as nat) / pow256(k as nat)) / 256)
                by (nonlinear_arith)
                requires
                    pow256((k + 1) as nat) == 256 * pow256(k as nat),
                    pow256(k as nat) > 0,
            ;
        }
        r.push((rest % 256) as u8);
        rest = rest / 256;
        k += 1;
    }
    assert(r@ =~= length_bytes(n as nat));
    let mut i: usize = 0;
    while i < first.len()
        invariant
            i <= first.len(),
            r@ == length_bytes(first@.len()) + first@.take(i as int),
        decreases first.len() - i,
    {
        r.push(first[i]);
        assert(first@.take(i + 1) =~= first@.take(i as int).push(first@[i as int]));
        assert(r@ =~= length_bytes(first@.len()) + first@.take(i + 1));
        i += 1;
    }
    assert(first@.take(i as int) =~= first@);
    let mut j: usize = 0;
    while j < second.len()
        invariant
            j <= second.len(),
            r@ == length_bytes(first@.len()) + first@ + second@.take(j as int),
        decreases second.len() - j,
    {
        r.push(second[j]);
        assert(second@.take(j + 1) =~= second@.take(j as int).push(second@[j as int]));
        assert(r@ =~= length_bytes(first@.len()) + first@ + second@.take(j + 1));
        j += 1;
    }
    assert(second@.take(j as int) =~= second@);
    r
}

/// The powers of 256 are positive.
pub proof fn lemma_pow256(k: nat)
    ensures
        pow256(k) > 0,
        pow256(k + 1) == 256 * pow256(k),
    decreases k,
{
    if k > 0 {
        lemma_pow256((k - 1) as nat);
    }
}

/// Takes a row of bytes apart into the two binary forms that it holds.
///
/// Fails with `DecodeError` where it holds none: where it has fewer than
/// eight bytes, or fewer bytes after them than the length says.
pub fn unframe(bytes: &[u8]) -> (r: Result<(Vec<u8>, Vec<u8>), StruqtureError>)
    ensures
        match unframed(bytes@) {
            Some(parts) => r.is_ok() && r.unwrap().0@ == parts.0 && r.unwrap().1@ == parts.1,
            None => r == Err::<(Vec<u8>, Vec<u8>), StruqtureError>(StruqtureError::DecodeError),
        },
{
    if bytes.len() < 8 {
        return Err(StruqtureError::DecodeError);
    }
    let available = bytes.len() - 8;
    // the length, from the highest byte down; it is of no use once it is
    // above what is available
    let mut n: usize = 0;
    let mut too_long = false;
    let mut k: usize = 8;
    while k > 0
        invariant
            k <= 8,
            bytes@.len() >= 8,
            available == bytes@.len() - 8,
            !too_long ==> n * pow256(k as nat) + length_of(bytes@, k as nat) == length_of(bytes@, 8),
            !too_long ==> n <= available,
            too_long ==> length_of(bytes@, 8) > available,
        decreases k,
    {
        k -= 1;
        let byte = bytes[k];
        proof {
            lemma_pow256(k as nat);
        }
        if !too_long {
            if byte as usize > available || n > (available - byte as usize) / 256 {
                proof {
                    // n * 256 + byte is above what is available
                    assert(n * 256 + byte > available) by (nonlinear_arith)
                        requires
                            byte > available || n > (available - byte) / 256,
                            n >= 0,
                            byte >= 0,
                            available >= 0,
                    ;
                    assert((n * 256 + byte) * pow256(k as nat) + length_of(bytes@, k as nat) == n
                        * pow256((k + 1) as nat) + length_of(bytes@, (k + 1) as nat))
                        by (nonlinear_arith)
                        requires
                            pow256((k + 1) as nat) == 256 * pow256(k as nat),
                            length_of(bytes@, (k + 1) as nat) == length_of(bytes@, k as nat)
                                + bytes@[k as int] as nat * pow256(k as nat),
                            byte == bytes@[k as int],
                    ;
                    assert((n * 256 + byte) * pow256(k as nat) > available) by (nonlinear_arith)
                        requires
                            n * 256 + byte > available,
                            pow256(k as nat) >= 1,
                            available >= 0,
                    ;
                }
                too_long = true;
            } else {
                proof {
                    assert(n * 256 + byte <= available) by (nonlinear_arith)
                        requires
                            n <= (available - byte) / 256,
                            byte <= available,
                            n >= 0,
                    ;
                    assert((n * 256 + byte) * pow256(k as nat) + length_of(bytes@, k as nat) == n
                        * pow256((k + 1) as nat) + length_of(bytes@, (k + 1) as nat))
                        by (nonlinear_arith)
                        requires
                            pow256((k + 1) as nat) == 256 * pow256(k as nat),
                            length_of(bytes@, (k + 1) as nat) == length_of(bytes@, k as nat)
                                + bytes@[k as int] as nat * pow256(k as nat),
                            byte == bytes@[k as int],
                    ;
                }
                n = n * 256 + byte as usize;
            }
        }
    }
    if too_long {
        return Err(StruqtureError::DecodeError);
    }
    assert(n == length_of(bytes@, 8)) by {
        assert(pow256(0) == 1);
        assert(length_of(bytes@, 0) == 0);
        assert(n * pow256(0) == n) by (nonlinear_arith)
            requires
                pow256(0) == 1,
        ;
    }
    let total = bytes.len();
    let mut first: Vec<u8> = Vec::new();
    let mut i: usize = 0;
    while i < n
        invariant
            i <= n,
            n <= available,
            total == bytes@.len(),
            available == bytes@.len() - 8,
            first@ =~= bytes@.subrange(8, 8 + i),
        decreases n - i,
    {
        first.push(bytes[8 + i]);
        i += 1;
    }
    let mut second: Vec<u8> = Vec::new();
    let mut j: usize = 8 + n;
    while j < bytes.len()
        invariant
            8 + n <= j <= bytes.len(),
            second@ =~= bytes@.subrange(8 + n, j as int),
        decreases bytes.len() - j,
    {
        second.push(bytes[j]);
        j += 1;
    }
    Ok((first, second))
}

/// The first bytes of a length stand for its remainder by the power of
/// 256 with their number as exponent.
pub proof fn lemma_length_bytes(n: nat, k: nat)
    requires
        k <= 8,
    ensures
        length_of(length_bytes(n), k) == n % pow256(k),
    decreases k,
{
    if k == 0 {
        assert(pow256(0) == 1);
    } else {
        let j = (k - 1) as nat;
        lemma_length_bytes(n, j);
        lemma_pow256(j);
        let p = pow256(j) as int;
        vstd::arithmetic::div_mod::lemma_mod_breakdown(n as int, p, 256);
        assert(length_bytes(n)[j as int] == ((n / pow256(j)) % 256) as u8);
        assert(pow256(k) == 256 * pow256(j));
        assert((n as int) % (p * 256) == p * (((n as int) / p) % 256) + (n as int) % p);
        assert(p * 256 == pow256(k)) by (nonlinear_arith)
            requires
                pow256(k) == 256 * pow256(j),
                p == pow256(j),
        ;
        assert((((n / pow256(j)) % 256) as u8) as nat * pow256(j) == p * (((n as int) / p) % 256))
            by (nonlinear_arith)
            requires
                p == pow256(j),
                p > 0,
        ;
    }
}

/// Round trip of the frame. Two binary forms that are put in one row come
/// out of the row again, where the first is not so long that its length
/// fails to fit in eight bytes.
pub proof fn lemma_frame_round_trip(first: Seq<u8>, second: Seq<u8>)
    requires
        first.len() < pow256(8),
    ensures
        unframed(framed(first, second)) == Some((first, second)),
{
    let bytes = framed(first, second);
    let head = length_bytes(first.len());
    lemma_length_bytes(first.len(), 8);
    lemma_length_prefix(bytes, head, 8);
    vstd::arithmetic::div_mod::lemma_small_mod(first.len(), pow256(8));
    assert(length_of(bytes, 8) == first.len());
    assert(bytes.subrange(8, 8 + first.len() as int) =~= first);
    assert(bytes.subrange(8 + first.len() as int, bytes.len() as int) =~= second);
}

/// What the first bytes of a row stand for depends on these bytes only.
pub proof fn lemma_length_prefix(bytes: Seq<u8>, head: Seq<u8>, k: nat)
    requires
        k <= head.len(),
        head.len() <= bytes.len(),
        forall|i: int| 0 <= i < head.len() ==> bytes[i] == head[i],
    ensures
        length_of(bytes, k) == length_of(head, k),
    decreases k,
{
    if k > 0 {
        lemma_length_prefix(bytes, head, (k - 1) as nat);
    }
}

/// The content of a readable form: its number, its items and its version.
pub type FormContent = (Option<usize>, Seq<ItemView>, u32, u32);

/// The content of a readable form in memory.
pub open spec fn form_content(form: ReadableSystem) -> FormContent {
    (
        form.number,
        items_view(form.operator.items@),
        form.operator.version.major_version,
        form.operator.version.minor_version,
    )
}

/// The version of a content.
pub open spec fn content_version(content: FormContent) -> StruqtureVersion {
    StruqtureVersion { major_version: content.2, minor_version: content.3 }
}

/// The open system that the contents of two readable forms describe, as a
/// reader of the given version reads them: its number of sites or modes,
/// the terms of its Hamiltonian and its noise terms. There is none where
/// the reader cannot read a version, a form describes no terms of its
/// kind, the numbers of the forms differ, or a term reaches beyond the
/// number.
pub open spec fn decoded_open_system<H: TextKey + ConjugateKey, N: SingleTextKey>(
    system: FormContent,
    noise: FormContent,
    reader: StruqtureVersion,
) -> Option<(Option<usize>, TermMap<H::V>, TermMap<(N::V, N::V)>)> {
    let system_terms = decoded_terms::<H, SelfAdjoint>(system.1);
    let noise_terms = decoded_terms::<(N, N), Unrestricted>(noise.1);
    let number = common_number(system.0, noise.0);
    if reader.reads(content_version(system)) && reader.reads(content_version(noise))
        && system_terms.is_some() && noise_terms.is_some() && number.is_some()
        && within_capacity::<H>(system_terms.unwrap(), number.unwrap()) && within_capacity::<
        (N, N),
    >(noise_terms.unwrap(), number.unwrap()) {
        Some((number.unwrap(), system_terms.unwrap(), noise_terms.unwrap()))
    } else {
        None
    }
}

/// The binary form of an open system with the given number and terms, as
/// a writer of the given version writes it: the binary forms of both halves
/// in one row. There is none where a half has none.
pub open spec fn open_system_binary_form<H: TextKey + ConjugateKey, N: SingleTextKey>(
    number: Option<usize>,
    system_rows: Seq<(H::V, CalculatorComplex)>,
    noise_rows: Seq<((N::V, N::V), CalculatorComplex)>,
    version: StruqtureVersion,
) -> Option<Seq<u8>> {
    let first = system_binary_form::<H>(number, system_rows, version);
    let second = system_binary_form::<(N, N)>(number, noise_rows, version);
    if first.is_some() && second.is_some() {
        Some(framed(first.unwrap(), second.unwrap()))
    } else {
        None
    }
}

impl<H: TextKey + ConjugateKey, N: SingleTextKey> OpenSystem<H, N> {
    /// The readable forms of the Hamiltonian and of the noise, as a writer
    /// of the given version writes them.
    pub fn readable(&self, version: StruqtureVersion) -> (r: (ReadableSystem, ReadableSystem))
        ensures
            r.0.number == self.capacity(),
            r.1.number == self.capacity(),
            r.0.operator.version == version,
            r.1.operator.version == version,
            represents::<H>(items_view(r.0.operator.items@), self.system_rows()),
            represents::<(N, N)>(items_view(r.1.operator.items@), self.noise_rows()),
    {
        let system = self.system().readable(version);
        let noise = self.noise().readable(version);
        (system, noise)
    }

    /// The open system that two readable forms describe, as a reader of
    /// the given version reads them.
    ///
    /// Fails with `DecodeError` where a form describes no system of its
    /// kind, or the two systems do not make up an open system.
    pub fn from_readable(system: &ReadableSystem, noise: &ReadableSystem, reader: StruqtureVersion) -> (r:
        Result<Self, StruqtureError>)
        ensures
            match decoded_open_system::<H, N>(form_content(*system), form_content(*noise), reader) {
                Some(content) => r.is_ok() && r.unwrap().capacity() == content.0
                    && r.unwrap().system_terms() == content.1 && r.unwrap().noise_terms()
                    == content.2,
                None => r == Err::<Self, StruqtureError>(StruqtureError::DecodeError),
            },
    {
        let system_part = match System::<H, SelfAdjoint>::from_readable(system, reader) {
            Ok(part) => part,
            Err(e) => {
                return Err(e);
            },
        };
        let noise_part = match System::<(N, N), Unrestricted>::from_readable(noise, reader) {
            Ok(part) => part,
            Err(e) => {
                return Err(e);
            },
        };
        match OpenSystem::group(system_part, noise_part) {
            Ok(open) => Ok(open),
            Err(_) => Err(StruqtureError::DecodeError),
        }
    }

    /// The binary form of the open system, as a writer of the given
    /// version writes it: the binary forms of the Hamiltonian and of the
    /// noise in one row.
    ///
    /// Fails with `DecodeError` where `bincode` writes no form of a half.
    pub fn to_bincode(&self, version: StruqtureVersion) -> (r: Result<Vec<u8>, StruqtureError>)
        ensures
            match open_system_binary_form::<H, N>(
                self.capacity(),
                self.system_rows(),
                self.noise_rows(),
                version,
            ) {
                Some(bytes) => r.is_ok() && r.unwrap()@ == bytes,
                None => r == Err::<Vec<u8>, StruqtureError>(StruqtureError::DecodeError),
            },
    {
        let (system, noise) = self.readable(version);
        proof {
            lemma_represents_items::<H>(items_view(system.operator.items@), self.system_rows());
            lemma_represents_items::<(N, N)>(items_view(noise.operator.items@), self.noise_rows());
        }
        let first = match system.to_bincode() {
            Ok(bytes) => bytes,
            Err(e) => {
                return Err(e);
            },
        };
        let second = match noise.to_bincode() {
            Ok(bytes) => bytes,
            Err(e) => {
                return Err(e);
            },
        };
        Ok(frame(&first, &second))
    }

    /// The open system that bytes are the binary form of, as a reader of
    /// the given version reads it.
    ///
    /// Fails with `DecodeError` where the bytes do not hold the binary
    /// forms of two systems that make up an open system of this kind.
    pub fn from_bincode(bytes: &[u8], reader: StruqtureVersion) -> (r: Result<Self, StruqtureError>)
        ensures
            ({
                let content = match unframed(bytes@) {
                    None => None,
                    Some(parts) => if binary_content(parts.0).is_some() && binary_content(
                        parts.1,
                    ).is_some() {
                        decoded_open_system::<H, N>(
                            binary_content(parts.0).unwrap(),
                            binary_content(parts.1).unwrap(),
                            reader,
                        )
                    } else {
                        None
                    },
                };
                match content {
                    Some(c) => r.is_ok() && r.unwrap().capacity() == c.0 && r.unwrap().system_terms()
                        == c.1 && r.unwrap().noise_terms() == c.2,
                    None => r == Err::<Self, StruqtureError>(StruqtureError::DecodeError),
                }
            }),
    {
        let (first, second) = match unframe(bytes) {
            Ok(parts) => parts,
            Err(e) => {
                return Err(e);
            },
        };
        let system = match ReadableSystem::from_bincode(first.as_slice()) {
            Ok(system) => system,
            Err(e) => {
                return Err(e);
            },
        };
        let noise = match ReadableSystem::from_bincode(second.as_slice()) {
            Ok(noise) => noise,
            Err(e) => {
                return Err(e);
            },
        };
        OpenSystem::from_readable(&system, &noise, reader)
    }
}

/// The bytes that `bincode::serialize` writes for a text, where it writes
/// any.
pub uninterp spec fn text_binary_form(text: Seq<char>) -> Option<Seq<u8>>;

/// The text that `bincode::deserialize` reads from bytes, where it reads
/// one.
pub uninterp spec fn text_binary_content(bytes: Seq<u8>) -> Option<Seq<char>>;

/// The JSON string that `serde_json::to_string` writes for a text, where it
/// writes one.
pub uninterp spec fn text_json_form(text: Seq<char>) -> Option<Seq<char>>;

/// Writes a text as bytes.
///
/// Calls `bincode::serialize` on the text. The contract names the bytes
/// that come back, and says that an error comes back where there are none.
#[verifier::external_body]
pub(crate) fn encode_text(text: &str) -> (r: Result<Vec<u8>, Box<bincode::ErrorKind>>)
    ensures
        match r {
            Ok(bytes) => text_binary_form(text@) == Some(bytes@),
            Err(_) => text_binary_form(text@).is_none(),
        },
{
    bincode::serialize(text)
}

/// Reads a text from bytes.
///
/// Calls `bincode::deserialize` for a `String`. The contract names the text
/// that comes back, and says that an error comes back where there is none.
#[verifier::external_body]
pub(crate) fn decode_text(bytes: &[u8]) -> (r: Result<String, Box<bincode::ErrorKind>>)
    ensures
        match r {
            Ok(text) => text_binary_content(bytes@) == Some(text@),
            Err(_) => text_binary_content(bytes@).is_none(),
        },
{
    bincode::deserialize::<String>(bytes)
}

/// Writes a text as a JSON string.
///
/// Calls `serde_json::to_string` on the text. The contract names the JSON
/// that comes back, and says that an error comes back where there is none.
#[verifier::external_body]
pub(crate) fn write_json_text(text: &str) -> (r: Result<String, serde_json::Error>)
    ensures
        match r {
            Ok(json) => text_json_form(text@) == Some(json@),
            Err(_) => text_json_form(text@).is_none(),
        },
{
    serde_json::to_string(text)
}

/// The product that a text names, where it names one.
pub open spec fn product_named<K: SingleTextKey>(text: Seq<char>) -> Option<K::V> {
    K::of_texts(seq![text])
}

/// The product that the binary form of a text names, where the bytes are
/// such a form and the text names a product.
pub open spec fn product_of_bytes<K: SingleTextKey>(bytes: Seq<u8>) -> Option<K::V> {
    match text_binary_content(bytes) {
        Some(text) => product_named::<K>(text),
        None => None,
    }
}

/// The product that a JSON string names, where the input is a JSON string
/// and its text names a product.
pub open spec fn product_of_json<K: SingleTextKey>(input: Seq<char>) -> Option<K::V> {
    match json_document(input) {
        Some(value) => match json_text(value) {
            Some(text) => product_named::<K>(text),
            None => None,
        },
        None => None,
    }
}

/// The product that a text names.
///
/// Fails with `DecodeError` where the text names none.
pub fn product_from_text<K: SingleTextKey>(text: String) -> (r: Result<K, StruqtureError>)
    ensures
        match product_named::<K>(text@) {
            Some(v) => r.is_ok() && r.unwrap()@ == v,
            None => r == Err::<K, StruqtureError>(StruqtureError::DecodeError),
        },
{
    let mut texts: Vec<String> = Vec::new();
    texts.push(text);
    proof {
        K::lemma_single();
        assert(texts_view(texts@).subrange(0, 1) =~= seq![text@]);
    }
    match K::key_from_texts(&texts, 0) {
        Some(key) => Ok(key),
        None => Err(StruqtureError::DecodeError),
    }
}

/// The text that names a product.
pub fn product_text<K: SingleTextKey>(key: &K) -> (r: String)
    ensures
        r@ == K::texts(key@)[0],
        K::texts(key@).len() == 1,
        product_named::<K>(r@) == Some(key@),
{
    let mut texts = key.key_texts();
    proof {
        K::lemma_single();
        K::lemma_texts(key@);
        assert(texts_view(texts@)[0] == texts@[0]@);
        assert(K::texts(key@) =~= seq![K::texts(key@)[0]]);
    }
    match texts.pop() {
        Some(text) => text,
        None => String::new(),
    }
}

/// The binary form of a product: the binary form of its text.
///
/// Fails with `DecodeError` where `bincode` writes none.
pub fn product_to_bincode<K: SingleTextKey>(key: &K) -> (r: Result<Vec<u8>, StruqtureError>)
    ensures
        match text_binary_form(K::texts(key@)[0]) {
            Some(bytes) => r.is_ok() && r.unwrap()@ == bytes,
            None => r == Err::<Vec<u8>, StruqtureError>(StruqtureError::DecodeError),
        },
{
    let text = product_text(key);
    match encode_text(text.as_str()) {
        Ok(bytes) => Ok(bytes),
        Err(_) => Err(StruqtureError::DecodeError),
    }
}

/// The product that bytes are the binary form of.
///
/// Fails with `DecodeError` where the bytes are the binary form of no
/// text, or of a text that names no product of this kind.
pub fn product_from_bincode<K: SingleTextKey>(bytes: &[u8]) -> (r: Result<K, StruqtureError>)
    ensures
        match product_of_bytes::<K>(bytes@) {
            Some(v) => r.is_ok() && r.unwrap()@ == v,
            None => r == Err::<K, StruqtureError>(StruqtureError::DecodeError),
        },
{
    match decode_text(bytes) {
        Ok(text) => product_from_text::<K>(text),
        Err(_) => Err(StruqtureError::DecodeError),
    }
}

/// The JSON form of a product: its text as a JSON string.
///
/// Fails with `DecodeError` where `serde_json` writes none.
pub fn product_to_json<K: SingleTextKey>(key: &K) -> (r: Result<String, StruqtureError>)
    ensures
        match text_json_form(K::texts(key@)[0]) {
            Some(json) => r.is_ok() && r.unwrap()@ == json,
            None => r == Err::<String, StruqtureError>(StruqtureError::DecodeError),
        },
{
    let text = product_text(key);
    match write_json_text(text.as_str()) {
        Ok(json) => Ok(json),
        Err(_) => Err(StruqtureError::DecodeError),
    }
}

/// The product that a JSON string names.
///
/// Fails with `DecodeError` where the input is no JSON, the JSON is no
/// string, or its text names no product of this kind.
pub fn product_from_json<K: SingleTextKey>(input: &str) -> (r: Result<K, StruqtureError>)
    ensures
        match product_of_json::<K>(input@) {
            Some(v) => r.is_ok() && r.unwrap()@ == v,
            None => r == Err::<K, StruqtureError>(StruqtureError::DecodeError),
        },
{
    let value = match parse_json(input) {
        Ok(value) => value,
        Err(_) => {
            return Err(StruqtureError::DecodeError);
        },
    };
    match text_of(&value) {
        Some(text) => product_from_text::<K>(text),
        None => Err(StruqtureError::DecodeError),
    }
}

} // verus!
