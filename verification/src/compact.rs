//! The compact form of operators and systems.
//!
//! The compact form is the readable form with index lists in place of
//! texts: the key of each term is written as the lists of its indices, so
//! that no text has to be read when the form is taken in again.

use crate::coefficient::{
    coeff_from_parts, coeff_im, coeff_imaginary_part, coeff_of_parts, coeff_re, coeff_real_part,
    coeff_vanishes,
};
use crate::encoding::StruqtureVersion;
use crate::error::StruqtureError;
use crate::key::{rows_view, CompactKey, ConjugateKey, TwoRowKey};
use crate::open_system::{common_number, OpenSystem};
use crate::operator::{
    distinct_keys, lemma_terms_map_take, takes, terms_map, with_term, CoefficientRule, Operator,
    SelfAdjoint, TermMap, Unrestricted,
};
use crate::system::{within_capacity, System};
use qoqo_calculator::CalculatorComplex;
use qoqo_calculator::CalculatorFloat;
use vstd::prelude::*;

verus! {

/// One term in compact form: the index lists of its key, and the real and the
/// imaginary part of its coefficient.
pub type CompactItem = (Vec<Vec<usize>>, CalculatorFloat, CalculatorFloat);

/// The compact form of an operator.
#[derive(Debug, Clone, PartialEq)]
pub struct CompactOperator {
    /// The terms, in the order in which the operator holds them.
    pub items: Vec<CompactItem>,
    /// The version of the schema that wrote the form.
    pub version: StruqtureVersion,
}

/// The compact form of a system.
#[derive(Debug, Clone, PartialEq)]
pub struct CompactSystem {
    /// The declared number of sites or modes.
    pub number: Option<usize>,
    /// The terms of the system.
    pub operator: CompactOperator,
}

/// The content of an item: the index lists of its key and the parts of its
/// coefficient.
pub type CompactItemView = (Seq<Seq<usize>>, CalculatorFloat, CalculatorFloat);

/// The contents of a row of items.
pub open spec fn compact_items_view(items: Seq<CompactItem>) -> Seq<CompactItemView> {
    Seq::new(items.len(), |i: int| (rows_view(items[i].0@), items[i].1, items[i].2))
}

/// Whether a row of items is the compact form of a row of terms: each
/// item has the index lists of the key of its term and the parts of its
/// coefficient, which make up the coefficient.
pub open spec fn represents_compact<K: CompactKey>(
    items: Seq<CompactItemView>,
    terms: Seq<(K::V, CalculatorComplex)>,
) -> bool {
    &&& items.len() == terms.len()
    &&& forall|i: int|
        0 <= i < items.len() ==> (#[trigger] items[i]).0 == K::rows(terms[i].0) && items[i].1
            == coeff_re(terms[i].1) && items[i].2 == coeff_im(terms[i].1) && terms[i].1
            == coeff_of_parts(items[i].1, items[i].2)
}

/// The operator that a row of items describes: the key of each item is
/// read from its index lists, and its coefficient is set for the key. There is
/// none where the index lists of an item describe no key, or the rule `R` does not
/// admit its coefficient.
pub open spec fn decoded_compact_terms<K: CompactKey, R: CoefficientRule<K>>(items: Seq<CompactItemView>) -> Option<
    TermMap<K::V>,
>
    decreases items.len(),
{
    if items.len() == 0 {
        Some(Map::empty())
    } else {
        match decoded_compact_terms::<K, R>(items.drop_last()) {
            None => None,
            Some(m) => {
                let item = items.last();
                let key = K::of_rows(item.0);
                let value = coeff_of_parts(item.1, item.2);
                if item.0.len() == K::row_count() && key.is_some() && takes::<K, R>(key.unwrap(), value) {
                    Some(with_term(m, key.unwrap(), value))
                } else {
                    None
                }
            },
        }
    }
}

/// Where a beginning of a row of items describes no operator, the row
/// describes none.
pub proof fn lemma_decoded_compact_terms_fails<K: CompactKey, R: CoefficientRule<K>>(items: Seq<CompactItemView>, k: int)
    requires
        0 <= k <= items.len(),
        decoded_compact_terms::<K, R>(items.take(k)).is_none(),
    ensures
        decoded_compact_terms::<K, R>(items).is_none(),
    decreases items.len() - k,
{
    if k < items.len() {
        assert(items.take(k + 1).drop_last() =~= items.take(k));
        lemma_decoded_compact_terms_fails::<K, R>(items, k + 1);
    } else {
        assert(items.take(k) =~= items);
    }
}

/// Round trip. The compact form of the terms of an operator describes
/// the operator: reading what was written gives back what was there.
pub proof fn lemma_decoded_compact_represents_compact<K: CompactKey, R: CoefficientRule<K>>(
    items: Seq<CompactItemView>,
    terms: Seq<(K::V, CalculatorComplex)>,
)
    requires
        represents_compact::<K>(items, terms),
        distinct_keys(terms),
        forall|i: int|
            0 <= i < terms.len() ==> K::compact_canonical((#[trigger] terms[i]).0) && !coeff_vanishes(
                terms[i].1,
            ) && takes::<K, R>(terms[i].0, terms[i].1),
    ensures
        decoded_compact_terms::<K, R>(items) == Some(terms_map(terms)),
    decreases items.len(),
{
    if items.len() == 0 {
        assert(terms_map(terms) =~= Map::empty());
    } else {
        let n = terms.len() - 1;
        let head_items = items.drop_last();
        let head_terms = terms.drop_last();
        assert(terms.take(n) =~= head_terms);
        assert(terms.take(n + 1) =~= terms);
        lemma_terms_map_take(terms, n);
        assert(represents_compact::<K>(head_items, head_terms)) by {
            assert forall|i: int| 0 <= i < head_items.len() implies (#[trigger] head_items[i]).0
                == K::rows(head_terms[i].0) && head_items[i].1 == coeff_re(head_terms[i].1)
                && head_items[i].2 == coeff_im(head_terms[i].1) && head_terms[i].1 == coeff_of_parts(
                head_items[i].1,
                head_items[i].2,
            ) by {
                assert(head_items[i] == items[i]);
                assert(head_terms[i] == terms[i]);
            }
        }
        assert forall|i: int| 0 <= i < head_terms.len() implies K::compact_canonical(
            (#[trigger] head_terms[i]).0,
        ) && !coeff_vanishes(head_terms[i].1) && takes::<K, R>(head_terms[i].0, head_terms[i].1) by {
            assert(head_terms[i] == terms[i]);
        }
        lemma_decoded_compact_represents_compact::<K, R>(head_items, head_terms);
        let last = terms[n];
        assert(items[n].0 == K::rows(last.0));
        K::lemma_rows(last.0);
    }
}

impl<K: CompactKey, R: CoefficientRule<K>> Operator<K, R> {
    /// The compact form of the operator, as a writer of the given version
    /// writes it.
    pub fn compact(&self, version: StruqtureVersion) -> (r: CompactOperator)
        ensures
            r.version == version,
            represents_compact::<K>(compact_items_view(r.items@), self.terms()),
    {
        let n = self.len();
        let mut items: Vec<CompactItem> = Vec::new();
        let mut i: usize = 0;
        while i < n
            invariant
                i <= n,
                n == self.terms().len(),
                items@.len() == i,
                forall|k: int|
                    0 <= k < i ==> rows_view((#[trigger] items@[k]).0@) == K::rows(
                        self.terms()[k].0,
                    ) && items@[k].1 == coeff_re(self.terms()[k].1) && items@[k].2 == coeff_im(
                        self.terms()[k].1,
                    ) && self.terms()[k].1 == coeff_of_parts(items@[k].1, items@[k].2),
            decreases n - i,
        {
            let rows = self.key_at(i).key_rows();
            let re = coeff_real_part(self.value_at(i));
            let im = coeff_imaginary_part(self.value_at(i));
            items.push((rows, re, im));
            i += 1;
        }
        CompactOperator { items, version }
    }

    /// The operator that a compact form describes, as a reader of the
    /// given version reads it.
    ///
    /// Fails with `DecodeError` where the reader cannot read the version of
    /// the form, the index lists of an item describe no key, or the coefficient of an
    /// item is not admitted for its key.
    pub fn from_compact(compact: &CompactOperator, reader: StruqtureVersion) -> (r: Result<
        Self,
        StruqtureError,
    >)
        ensures
            match r {
                Ok(operator) => reader.reads(compact.version) && decoded_compact_terms::<K, R>(
                    compact_items_view(compact.items@),
                ) == Some(operator@),
                Err(e) => e == StruqtureError::DecodeError && !(reader.reads(compact.version)
                    && decoded_compact_terms::<K, R>(compact_items_view(compact.items@)).is_some()),
            },
    {
        if !reader.can_read(&compact.version) {
            return Err(StruqtureError::DecodeError);
        }
        let ghost all = compact_items_view(compact.items@);
        let mut operator: Operator<K, R> = Operator::new();
        let arity = K::key_row_count();
        let mut i: usize = 0;
        assert(all.take(0) =~= Seq::empty());
        while i < compact.items.len()
            invariant
                i <= compact.items.len(),
                all == compact_items_view(compact.items@),
                arity == K::row_count(),
                decoded_compact_terms::<K, R>(all.take(i as int)) == Some(operator@),
            decreases compact.items.len() - i,
        {
            proof {
                assert(all.take(i + 1).drop_last() =~= all.take(i as int));
                assert(all.take(i + 1).last() == all[i as int]);
            }
            let item = &compact.items[i];
            if item.0.len() != arity {
                proof {
                    lemma_decoded_compact_terms_fails::<K, R>(all, i + 1);
                }
                return Err(StruqtureError::DecodeError);
            }
            assert(rows_view(item.0@).subrange(0, arity as int) =~= rows_view(item.0@));
            let key = match K::key_from_rows(&item.0, 0) {
                Some(key) => key,
                None => {
                    proof {
                        lemma_decoded_compact_terms_fails::<K, R>(all, i + 1);
                    }
                    return Err(StruqtureError::DecodeError);
                },
            };
            let value = coeff_from_parts(&item.1, &item.2);
            match operator.set(key, value) {
                Ok(_) => {},
                Err(_) => {
                    proof {
                        lemma_decoded_compact_terms_fails::<K, R>(all, i + 1);
                    }
                    return Err(StruqtureError::DecodeError);
                },
            }
            i += 1;
        }
        assert(all.take(i as int) =~= all);
        Ok(operator)
    }
}

impl<K: CompactKey, R: CoefficientRule<K>> System<K, R> {
    /// The compact form of the system, as a writer of the given version
    /// writes it.
    pub fn compact(&self, version: StruqtureVersion) -> (r: CompactSystem)
        ensures
            r.number == self.capacity(),
            r.operator.version == version,
            represents_compact::<K>(compact_items_view(r.operator.items@), self.terms()),
    {
        CompactSystem { number: self.declared_number(), operator: self.operator().compact(version) }
    }

    /// The system that a compact form describes, as a reader of the given
    /// version reads it.
    ///
    /// Fails with `DecodeError` where the reader cannot read the version of
    /// the form, the index lists of an item describe no key, the coefficient of an
    /// item is not admitted for its key, or a term reaches beyond the
    /// number of sites or modes of the form.
    pub fn from_compact(compact: &CompactSystem, reader: StruqtureVersion) -> (r: Result<
        Self,
        StruqtureError,
    >)
        ensures
            match r {
                Ok(system) => reader.reads(compact.operator.version) && decoded_compact_terms::<K, R>(
                    compact_items_view(compact.operator.items@),
                ) == Some(system@) && system.capacity() == compact.number && within_capacity::<K>(
                    system@,
                    compact.number,
                ),
                Err(e) => e == StruqtureError::DecodeError && !(reader.reads(
                    compact.operator.version,
                ) && decoded_compact_terms::<K, R>(compact_items_view(compact.operator.items@)).is_some()
                    && within_capacity::<K>(
                    decoded_compact_terms::<K, R>(compact_items_view(compact.operator.items@)).unwrap(),
                    compact.number,
                )),
            },
    {
        let operator = match Operator::<K, R>::from_compact(&compact.operator, reader) {
            Ok(operator) => operator,
            Err(e) => {
                return Err(e);
            },
        };
        match System::from_operator(operator, compact.number) {
            Ok(system) => Ok(system),
            Err(_) => Err(StruqtureError::DecodeError),
        }
    }
}

/// The open system that two compact forms describe, as a reader of the
/// given version reads them: its number of sites or modes, the terms of its
/// Hamiltonian and its noise terms. There is none where the reader cannot
/// read a version, a form describes no terms of its kind, the numbers of
/// the forms differ, or a term reaches beyond the number.
pub open spec fn decoded_compact_open_system<H: CompactKey + ConjugateKey, N: TwoRowKey>(
    system: CompactSystem,
    noise: CompactSystem,
    reader: StruqtureVersion,
) -> Option<(Option<usize>, TermMap<H::V>, TermMap<(N::V, N::V)>)> {
    let system_terms = decoded_compact_terms::<H, SelfAdjoint>(
        compact_items_view(system.operator.items@),
    );
    let noise_terms = decoded_compact_terms::<(N, N), Unrestricted>(
        compact_items_view(noise.operator.items@),
    );
    let number = common_number(system.number, noise.number);
    if reader.reads(system.operator.version) && reader.reads(noise.operator.version)
        && system_terms.is_some() && noise_terms.is_some() && number.is_some()
        && within_capacity::<H>(system_terms.unwrap(), number.unwrap()) && within_capacity::<
        (N, N),
    >(noise_terms.unwrap(), number.unwrap()) {
        Some((number.unwrap(), system_terms.unwrap(), noise_terms.unwrap()))
    } else {
        None
    }
}

impl<H: CompactKey + ConjugateKey, N: TwoRowKey> OpenSystem<H, N> {
    /// The compact forms of the Hamiltonian and of the noise, as a writer
    /// of the given version writes them.
    pub fn compact(&self, version: StruqtureVersion) -> (r: (CompactSystem, CompactSystem))
        ensures
            r.0.number == self.capacity(),
            r.1.number == self.capacity(),
            r.0.operator.version == version,
            r.1.operator.version == version,
            represents_compact::<H>(compact_items_view(r.0.operator.items@), self.system_rows()),
            represents_compact::<(N, N)>(
                compact_items_view(r.1.operator.items@),
                self.noise_rows(),
            ),
    {
        let system = self.system().compact(version);
        let noise = self.noise().compact(version);
        (system, noise)
    }

    /// The open system that two compact forms describe, as a reader of the
    /// given version reads them.
    ///
    /// Fails with `DecodeError` where a form describes no system of its
    /// kind, or the two systems do not make up an open system.
    pub fn from_compact(system: &CompactSystem, noise: &CompactSystem, reader: StruqtureVersion) -> (r:
        Result<Self, StruqtureError>)
        ensures
            match decoded_compact_open_system::<H, N>(*system, *noise, reader) {
                Some(content) => r.is_ok() && r.unwrap().capacity() == content.0
                    && r.unwrap().system_terms() == content.1 && r.unwrap().noise_terms()
                    == content.2,
                None => r == Err::<Self, StruqtureError>(StruqtureError::DecodeError),
            },
    {
        let system_part = match System::<H, SelfAdjoint>::from_compact(system, reader) {
            Ok(part) => part,
            Err(e) => {
                return Err(e);
            },
        };
        let noise_part = match System::<(N, N), Unrestricted>::from_compact(noise, reader) {
            Ok(part) => part,
            Err(e) => {
                return Err(e);
            },
        };
        match OpenSystem::group(system_part, noise_part) {
            Ok(open) => Ok(open),
            Err(_) => Err(StruqtureError::DecodeError),
        }
    }
}

} // verus!
