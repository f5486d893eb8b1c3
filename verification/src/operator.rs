//! The operator container: a finite sum of terms, each a canonical product
//! with a coefficient that is not zero.

use crate::coefficient::{
    coeff_add, coeff_clone, coeff_conj, coeff_conjugate, coeff_eq, coeff_from_ints,
    coeff_from_phase, coeff_from_real, coeff_from_sign, coeff_has_no_imaginary_part, coeff_is_real,
    coeff_of_real, coeff_is_zero, coeff_of_phase, coeff_mul, coeff_neg, coeff_negation, coeff_of_sign,
    coeff_product, coeff_same, coeff_sum, coeff_survives, coeff_vanishes, coeff_zero,
    survives_truncation,
};
use crate::error::StruqtureError;
use crate::key::{ConjugateKey, MultiplyKey, OperatorKey};
use core::marker::PhantomData;
use crate::sign::Phase;
use qoqo_calculator::CalculatorComplex;
use qoqo_calculator::CalculatorFloat;
use vstd::prelude::*;
use vstd::std_specs::cmp::PartialEqSpecImpl;

verus! {

/// The terms of an operator as a mapping from product to coefficient.
pub type TermMap<KV> = Map<KV, CalculatorComplex>;

/// No two terms of a row have the same product.
pub open spec fn distinct_keys<KV>(terms: Seq<(KV, CalculatorComplex)>) -> bool {
    forall|i: int, j: int|
        0 <= i < terms.len() && 0 <= j < terms.len() && i != j ==> (#[trigger] terms[i]).0
            != (#[trigger] terms[j]).0
}

/// Whether a row of terms has a term with the given product.
pub open spec fn has_key<KV>(terms: Seq<(KV, CalculatorComplex)>, key: KV) -> bool {
    exists|i: int| 0 <= i < terms.len() && (#[trigger] terms[i]).0 == key
}

/// The place of a term with the given product in a row that has one.
pub open spec fn place_of<KV>(terms: Seq<(KV, CalculatorComplex)>, key: KV) -> int {
    choose|i: int| 0 <= i < terms.len() && (#[trigger] terms[i]).0 == key
}

/// The mapping that a row of terms with distinct products stands for.
pub open spec fn terms_map<KV>(terms: Seq<(KV, CalculatorComplex)>) -> TermMap<KV> {
    Map::new(|key: KV| has_key(terms, key), |key: KV| terms[place_of(terms, key)].1)
}

/// The coefficient of a product in an operator: zero where it has no such term.
pub open spec fn coefficient_in<KV>(m: TermMap<KV>, key: KV) -> CalculatorComplex {
    if m.contains_key(key) {
        m[key]
    } else {
        coeff_zero()
    }
}

/// The operator with the coefficient of one product replaced: a coefficient
/// that is zero takes the term out.
pub open spec fn with_term<KV>(m: TermMap<KV>, key: KV, value: CalculatorComplex) -> TermMap<KV> {
    if coeff_vanishes(value) {
        m.remove(key)
    } else {
        m.insert(key, value)
    }
}

/// The operator with a term added to it: the coefficients of equal products add.
pub open spec fn plus_term<KV>(m: TermMap<KV>, key: KV, value: CalculatorComplex) -> TermMap<KV> {
    with_term(m, key, coeff_sum(coefficient_in(m, key), value))
}

/// The row of terms of an operator after the coefficient of one product is
/// replaced: a new term goes to the end, a term whose coefficient becomes
/// zero leaves, and the other terms keep their places.
pub open spec fn terms_with<KV>(
    terms: Seq<(KV, CalculatorComplex)>,
    key: KV,
    value: CalculatorComplex,
) -> Seq<(KV, CalculatorComplex)> {
    if has_key(terms, key) {
        if coeff_vanishes(value) {
            terms.remove(place_of(terms, key))
        } else {
            terms.update(place_of(terms, key), (key, value))
        }
    } else if coeff_vanishes(value) {
        terms
    } else {
        terms.push((key, value))
    }
}

/// The row of terms of an operator after a term is added to it.
pub open spec fn terms_plus<KV>(
    terms: Seq<(KV, CalculatorComplex)>,
    key: KV,
    value: CalculatorComplex,
) -> Seq<(KV, CalculatorComplex)> {
    terms_with(terms, key, coeff_sum(coefficient_in(terms_map(terms), key), value))
}

/// The row of terms of an operator after a row of terms is added to it, one
/// after the other.
pub open spec fn accumulate_terms<KV>(
    terms: Seq<(KV, CalculatorComplex)>,
    added: Seq<(KV, CalculatorComplex)>,
) -> Seq<(KV, CalculatorComplex)>
    decreases added.len(),
{
    if added.len() == 0 {
        terms
    } else {
        terms_plus(accumulate_terms(terms, added.drop_last()), added.last().0, added.last().1)
    }
}

/// The operator with a row of terms added to it, one after the other.
pub open spec fn accumulate<KV>(m: TermMap<KV>, terms: Seq<(KV, CalculatorComplex)>) -> TermMap<KV>
    decreases terms.len(),
{
    if terms.len() == 0 {
        m
    } else {
        plus_term(accumulate(m, terms.drop_last()), terms.last().0, terms.last().1)
    }
}

/// The mapping of a row with distinct products has each term of the row.
pub proof fn lemma_terms_map_at<KV>(terms: Seq<(KV, CalculatorComplex)>, i: int)
    requires
        distinct_keys(terms),
        0 <= i < terms.len(),
    ensures
        terms_map(terms).contains_key(terms[i].0),
        terms_map(terms)[terms[i].0] == terms[i].1,
        place_of(terms, terms[i].0) == i,
{
    assert(has_key(terms, terms[i].0));
}

/// A term with a new product at the end of a row adds an entry to the
/// mapping of the row.
pub proof fn lemma_terms_map_push<KV>(terms: Seq<(KV, CalculatorComplex)>, key: KV, value: CalculatorComplex)
    requires
        distinct_keys(terms),
        !has_key(terms, key),
    ensures
        distinct_keys(terms.push((key, value))),
        terms_map(terms.push((key, value))) =~= terms_map(terms).insert(key, value),
{
    let next = terms.push((key, value));
    assert forall|i: int, j: int| 0 <= i < next.len() && 0 <= j < next.len() && i != j implies (
    #[trigger] next[i]).0 != (#[trigger] next[j]).0 by {
        if i < terms.len() && j < terms.len() {
            assert(terms[i].0 != terms[j].0);
        } else if i < terms.len() {
            assert(terms[i].0 != key);
        } else {
            assert(terms[j].0 != key);
        }
    }
    assert forall|k: KV| terms_map(next).contains_key(k) <==> terms_map(terms).insert(
        key,
        value,
    ).contains_key(k) by {
        if has_key(next, k) {
            let i = place_of(next, k);
            if i < terms.len() {
                assert(terms[i].0 == k);
            }
        }
        if has_key(terms, k) {
            let i = place_of(terms, k);
            assert(next[i].0 == k);
        }
        if k == key {
            assert(next[terms.len() as int].0 == k);
        }
    }
    assert forall|k: KV| terms_map(next).contains_key(k) implies terms_map(next)[k] == terms_map(
        terms,
    ).insert(key, value)[k] by {
        let i = place_of(next, k);
        lemma_terms_map_at(next, i);
        if i < terms.len() {
            assert(terms[i].0 == k);
            lemma_terms_map_at(terms, i);
        }
    }
}

/// A new coefficient for a term of a row replaces the entry of its product
/// in the mapping of the row.
pub proof fn lemma_terms_map_update<KV>(terms: Seq<(KV, CalculatorComplex)>, i: int, value: CalculatorComplex)
    requires
        distinct_keys(terms),
        0 <= i < terms.len(),
    ensures
        distinct_keys(terms.update(i, (terms[i].0, value))),
        terms_map(terms.update(i, (terms[i].0, value))) =~= terms_map(terms).insert(
            terms[i].0,
            value,
        ),
{
    let key = terms[i].0;
    let next = terms.update(i, (key, value));
    assert forall|a: int, b: int| 0 <= a < next.len() && 0 <= b < next.len() && a != b implies (
    #[trigger] next[a]).0 != (#[trigger] next[b]).0 by {
        assert(next[a].0 == terms[a].0);
        assert(next[b].0 == terms[b].0);
    }
    assert forall|k: KV| terms_map(next).contains_key(k) <==> terms_map(terms).insert(
        key,
        value,
    ).contains_key(k) by {
        if has_key(next, k) {
            let a = place_of(next, k);
            assert(terms[a].0 == k);
        }
        if has_key(terms, k) {
            let a = place_of(terms, k);
            assert(next[a].0 == k);
        }
    }
    assert forall|k: KV| terms_map(next).contains_key(k) implies terms_map(next)[k] == terms_map(
        terms,
    ).insert(key, value)[k] by {
        let a = place_of(next, k);
        lemma_terms_map_at(next, a);
        assert(terms[a].0 == k);
        lemma_terms_map_at(terms, a);
    }
}

/// A row without one of its terms has the mapping of the row without the
/// entry of the product of the term.
pub proof fn lemma_terms_map_remove<KV>(terms: Seq<(KV, CalculatorComplex)>, i: int)
    requires
        distinct_keys(terms),
        0 <= i < terms.len(),
    ensures
        distinct_keys(terms.remove(i)),
        terms_map(terms.remove(i)) =~= terms_map(terms).remove(terms[i].0),
{
    let key = terms[i].0;
    let next = terms.remove(i);
    assert forall|a: int, b: int| 0 <= a < next.len() && 0 <= b < next.len() && a != b implies (
    #[trigger] next[a]).0 != (#[trigger] next[b]).0 by {
        let a0 = if a < i { a } else { a + 1 };
        let b0 = if b < i { b } else { b + 1 };
        assert(next[a] == terms[a0]);
        assert(next[b] == terms[b0]);
    }
    assert forall|k: KV| terms_map(next).contains_key(k) <==> terms_map(terms).remove(
        key,
    ).contains_key(k) by {
        if has_key(next, k) {
            let a = place_of(next, k);
            let a0 = if a < i { a } else { a + 1 };
            assert(next[a] == terms[a0]);
            assert(terms[a0].0 == k);
            assert(a0 != i);
            assert(terms[a0].0 != terms[i].0);
        }
        if has_key(terms, k) && k != key {
            let a = place_of(terms, k);
            let a1 = if a < i { a } else { a - 1 };
            assert(next[a1] == terms[a]);
            assert(next[a1].0 == k);
        }
    }
    assert forall|k: KV| terms_map(next).contains_key(k) implies terms_map(next)[k] == terms_map(
        terms,
    ).remove(key)[k] by {
        let a = place_of(next, k);
        lemma_terms_map_at(next, a);
        let a0 = if a < i { a } else { a + 1 };
        assert(next[a] == terms[a0]);
        lemma_terms_map_at(terms, a0);
    }
}

/// The coefficients of the mapping are those of the row.
pub proof fn lemma_terms_map_values<KV>(terms: Seq<(KV, CalculatorComplex)>)
    requires
        distinct_keys(terms),
        forall|i: int| 0 <= i < terms.len() ==> !coeff_vanishes((#[trigger] terms[i]).1),
    ensures
        forall|key: KV| terms_map(terms).contains_key(key) ==> !coeff_vanishes(#[trigger] terms_map(terms)[key]),
{
    assert forall|key: KV| terms_map(terms).contains_key(key) implies !coeff_vanishes(
        #[trigger] terms_map(terms)[key],
    ) by {
        let i = place_of(terms, key);
        lemma_terms_map_at(terms, i);
    }
}

/// The mapping of a row with distinct products has as many entries as the row.
pub proof fn lemma_terms_map_len<KV>(terms: Seq<(KV, CalculatorComplex)>)
    requires
        distinct_keys(terms),
    ensures
        terms_map(terms).dom().finite(),
        terms_map(terms).len() == terms.len(),
    decreases terms.len(),
{
    if terms.len() == 0 {
        assert(terms_map(terms).dom() =~= Set::<KV>::empty());
    } else {
        let rest = terms.drop_last();
        let last = terms.last();
        assert forall|i: int, j: int| 0 <= i < rest.len() && 0 <= j < rest.len() && i != j implies (
        #[trigger] rest[i]).0 != (#[trigger] rest[j]).0 by {
            assert(rest[i] == terms[i] && rest[j] == terms[j]);
        }
        lemma_terms_map_len(rest);
        assert(!has_key(rest, last.0)) by {
            if has_key(rest, last.0) {
                let i = place_of(rest, last.0);
                assert(terms[i].0 == terms[terms.len() - 1].0);
            }
        }
        lemma_terms_map_push(rest, last.0, last.1);
        assert(rest.push(last) =~= terms);
        assert(terms_map(terms).dom() =~= terms_map(rest).dom().insert(last.0));
    }
}

/// Adding two rows of terms one after the other adds their concatenation.
pub proof fn lemma_accumulate_concat<KV>(
    m: TermMap<KV>,
    first: Seq<(KV, CalculatorComplex)>,
    second: Seq<(KV, CalculatorComplex)>,
)
    ensures
        accumulate(m, first + second) == accumulate(accumulate(m, first), second),
    decreases second.len(),
{
    if second.len() == 0 {
        assert(first + second =~= first);
    } else {
        assert((first + second).drop_last() =~= first + second.drop_last());
        lemma_accumulate_concat(m, first, second.drop_last());
    }
}

/// Adding a row of terms with one more term at its end is adding the row
/// and then the term.
pub proof fn lemma_accumulate_push<KV>(m: TermMap<KV>, terms: Seq<(KV, CalculatorComplex)>, key: KV, value: CalculatorComplex)
    ensures
        accumulate(m, terms.push((key, value))) == plus_term(accumulate(m, terms), key, value),
{
    assert(terms.push((key, value)).drop_last() =~= terms);
}

/// What can be done to each coefficient of an operator.
pub enum CoefficientChange {
    /// `c` becomes `-c`.
    Negate,
    /// `c` becomes `c * factor`.
    Scale(CalculatorComplex),
}

impl CoefficientChange {
    /// The coefficient after the change.
    pub open spec fn of(self, c: CalculatorComplex) -> CalculatorComplex {
        match self {
            CoefficientChange::Negate => coeff_negation(c),
            CoefficientChange::Scale(factor) => coeff_product(c, factor),
        }
    }

    fn apply(&self, c: &CalculatorComplex) -> (r: CalculatorComplex)
        ensures
            r == self.of(*c),
    {
        match self {
            CoefficientChange::Negate => coeff_neg(c),
            CoefficientChange::Scale(factor) => coeff_mul(c, factor),
        }
    }
}

/// The operator with each coefficient changed, and without the terms whose
/// changed coefficient is zero.
pub open spec fn changed<KV>(m: TermMap<KV>, change: CoefficientChange) -> TermMap<KV> {
    Map::new(
        |key: KV| m.contains_key(key) && !coeff_vanishes(change.of(m[key])),
        |key: KV| change.of(m[key]),
    )
}

/// The sum of two operators: the coefficients of equal products add, and a
/// sum that is zero takes the term out.
pub open spec fn map_sum<KV>(a: TermMap<KV>, b: TermMap<KV>) -> TermMap<KV> {
    Map::new(
        |key: KV|
            if b.contains_key(key) {
                !coeff_vanishes(coeff_sum(coefficient_in(a, key), b[key]))
            } else {
                a.contains_key(key)
            },
        |key: KV|
            if b.contains_key(key) {
                coeff_sum(coefficient_in(a, key), b[key])
            } else {
                a[key]
            },
    )
}

/// The terms of an operator whose products meet a condition.
pub open spec fn selected<KV>(m: TermMap<KV>, wanted: spec_fn(KV) -> bool) -> TermMap<KV> {
    Map::new(|key: KV| m.contains_key(key) && wanted(key), |key: KV| m[key])
}

/// The terms of an operator that stay when it is truncated at a threshold.
pub open spec fn truncated<KV>(m: TermMap<KV>, threshold: CalculatorFloat) -> TermMap<KV> {
    Map::new(
        |key: KV| m.contains_key(key) && survives_truncation(m[key], threshold),
        |key: KV| m[key],
    )
}

/// Whether two operators have terms for the same products, with coefficients
/// that `qoqo_calculator` finds equal.
pub open spec fn same_terms<KV>(a: TermMap<KV>, b: TermMap<KV>) -> bool {
    &&& a.dom() =~= b.dom()
    &&& forall|key: KV| a.contains_key(key) ==> coeff_same(#[trigger] a[key], b[key])
}

/// The beginning of a row of terms with distinct products is such a row, and
/// the next term extends its mapping.
pub proof fn lemma_terms_map_take<KV>(terms: Seq<(KV, CalculatorComplex)>, i: int)
    requires
        distinct_keys(terms),
        0 <= i < terms.len(),
    ensures
        distinct_keys(terms.take(i)),
        distinct_keys(terms.take(i + 1)),
        !has_key(terms.take(i), terms[i].0),
        terms_map(terms.take(i + 1)) =~= terms_map(terms.take(i)).insert(terms[i].0, terms[i].1),
{
    let head = terms.take(i);
    assert forall|a: int, b: int| 0 <= a < head.len() && 0 <= b < head.len() && a != b implies (
    #[trigger] head[a]).0 != (#[trigger] head[b]).0 by {
        assert(head[a] == terms[a] && head[b] == terms[b]);
    }
    if has_key(head, terms[i].0) {
        let a = place_of(head, terms[i].0);
        assert(head[a] == terms[a]);
        assert(terms[a].0 != terms[i].0);
    }
    lemma_terms_map_push(head, terms[i].0, terms[i].1);
    assert(head.push((terms[i].0, terms[i].1)) =~= terms.take(i + 1));
}

/// Adding terms to an operator gives terms only for products that the
/// operator has or that are among the added terms.
pub proof fn lemma_accumulate_keys<KV>(m: TermMap<KV>, terms: Seq<(KV, CalculatorComplex)>)
    ensures
        forall|key: KV| #[trigger]
            accumulate(m, terms).contains_key(key) ==> m.contains_key(key) || has_key(terms, key),
    decreases terms.len(),
{
    if terms.len() > 0 {
        lemma_accumulate_keys(m, terms.drop_last());
        assert forall|key: KV| #[trigger]
            accumulate(m, terms).contains_key(key) implies m.contains_key(key) || has_key(
            terms,
            key,
        ) by {
            if key == terms.last().0 {
                assert(terms[terms.len() - 1].0 == key);
            } else {
                assert(accumulate(m, terms.drop_last()).contains_key(key));
                if has_key(terms.drop_last(), key) {
                    let i = place_of(terms.drop_last(), key);
                    assert(terms[i].0 == key);
                }
            }
        }
    }
}

/// Adding a row of terms with distinct products adds, for each product, its
/// coefficient to the one that the operator has.
pub proof fn lemma_accumulate_distinct<KV>(m: TermMap<KV>, terms: Seq<(KV, CalculatorComplex)>)
    requires
        distinct_keys(terms),
    ensures
        accumulate(m, terms) =~= map_sum(m, terms_map(terms)),
    decreases terms.len(),
{
    if terms.len() == 0 {
        assert(terms_map(terms) =~= Map::empty());
    } else {
        let i = terms.len() - 1;
        lemma_terms_map_take(terms, i);
        assert(terms.take(i) =~= terms.drop_last());
        assert(terms.take(i + 1) =~= terms);
        lemma_accumulate_distinct(m, terms.drop_last());
    }
}

/// The largest span among the products of a row of terms.
pub open spec fn reach<K: OperatorKey>(terms: Seq<(K::V, CalculatorComplex)>) -> nat
    decreases terms.len(),
{
    if terms.len() == 0 {
        0
    } else {
        let rest = reach::<K>(terms.drop_last());
        if K::span(terms.last().0) > rest {
            K::span(terms.last().0)
        } else {
            rest
        }
    }
}

/// The reach of a row of terms is the span of one of its products, and
/// no product of the row has a larger one.
pub proof fn lemma_reach<K: OperatorKey>(terms: Seq<(K::V, CalculatorComplex)>)
    ensures
        forall|i: int| 0 <= i < terms.len() ==> K::span((#[trigger] terms[i]).0) <= reach::<K>(terms),
        terms.len() > 0 ==> exists|i: int| 0 <= i < terms.len() && K::span((#[trigger] terms[i]).0) == reach::<K>(terms),
        terms.len() == 0 ==> reach::<K>(terms) == 0,
    decreases terms.len(),
{
    if terms.len() > 0 {
        let rest = terms.drop_last();
        lemma_reach::<K>(rest);
        assert forall|i: int| 0 <= i < terms.len() implies K::span((#[trigger] terms[i]).0)
            <= reach::<K>(terms) by {
            if i < rest.len() {
                assert(rest[i] == terms[i]);
            }
        }
        if K::span(terms.last().0) >= reach::<K>(rest) {
            assert(K::span(terms[terms.len() - 1].0) == reach::<K>(terms));
        } else {
            assert(rest.len() > 0);
            let i = choose|i: int| 0 <= i < rest.len() && K::span((#[trigger] rest[i]).0) == reach::<K>(rest);
            assert(terms[i] == rest[i]);
            assert(K::span(terms[i].0) == reach::<K>(terms));
        }
    }
}

/// The terms of the adjoint operator before they are summed up: each
/// product conjugated, each coefficient conjugated and multiplied by the
/// sign of the conjugated product.
pub open spec fn conjugate_terms<K: ConjugateKey>(terms: Seq<(K::V, CalculatorComplex)>) -> Seq<
    (K::V, CalculatorComplex),
> {
    terms.map_values(
        |t: (K::V, CalculatorComplex)|
            (
                K::conjugate(t.0),
                coeff_product(coeff_conjugate(t.1), coeff_of_sign(K::conjugate_sign(t.0))),
            ),
    )
}

/// Which coefficients an operator takes for which products when a term is
/// set or added.
pub trait CoefficientRule<K: OperatorKey>: Sized {
    /// Whether a term with the given product may have the given coefficient.
    spec fn admits(key: K::V, value: CalculatorComplex) -> bool;

    /// Whether a term with the given product may have the given coefficient.
    fn check(key: &K, value: &CalculatorComplex) -> (b: bool)
        ensures
            b == Self::admits(key@, *value),
    ;

    /// Whether operators with this rule are Hamiltonians.
    spec fn hamiltonian() -> bool;

    /// Whether operators with this rule are Hamiltonians.
    fn is_hamiltonian() -> (b: bool)
        ensures
            b == Self::hamiltonian(),
    ;
}

/// The rule of a general operator: every coefficient is taken.
#[derive(Debug)]
pub struct Unrestricted;

/// The rule of a Hamiltonian: a product that is its own adjoint takes only
/// a coefficient without imaginary part.
#[derive(Debug)]
pub struct SelfAdjoint;

impl<K: OperatorKey> CoefficientRule<K> for Unrestricted {
    open spec fn admits(key: K::V, value: CalculatorComplex) -> bool {
        true
    }

    fn check(key: &K, value: &CalculatorComplex) -> (b: bool) {
        true
    }

    open spec fn hamiltonian() -> bool {
        false
    }

    fn is_hamiltonian() -> (b: bool) {
        false
    }
}

impl<K: ConjugateKey> CoefficientRule<K> for SelfAdjoint {
    open spec fn admits(key: K::V, value: CalculatorComplex) -> bool {
        K::natural_hermitian(key) ==> coeff_is_real(value)
    }

    fn check(key: &K, value: &CalculatorComplex) -> (b: bool) {
        !key.key_is_natural_hermitian() || coeff_has_no_imaginary_part(value)
    }

    open spec fn hamiltonian() -> bool {
        true
    }

    fn is_hamiltonian() -> (b: bool) {
        true
    }
}

/// Whether an operator takes a coefficient for a product: a coefficient
/// that is zero only takes the term out, and is always taken.
pub open spec fn takes<K: OperatorKey, R: CoefficientRule<K>>(
    key: K::V,
    value: CalculatorComplex,
) -> bool {
    coeff_vanishes(value) || R::admits(key, value)
}

/// A finite sum of terms. Each term is a canonical product with its
/// coefficient; no product occurs twice and no coefficient is zero.
#[derive(Debug)]
pub struct Operator<K: OperatorKey, R: CoefficientRule<K> = Unrestricted> {
    entries: Vec<(K, CalculatorComplex)>,
    rule: PhantomData<R>,
}

impl<K: OperatorKey, R: CoefficientRule<K>> Operator<K, R> {
    #[verifier::type_invariant]
    closed spec fn well_formed(self) -> bool {
        &&& distinct_keys(self.terms())
        &&& forall|i: int| 0 <= i < self.terms().len() ==> !coeff_vanishes((#[trigger] self.terms()[i]).1)
    }

    /// The terms in the order in which the operator holds them.
    pub closed spec fn terms(self) -> Seq<(K::V, CalculatorComplex)> {
        self.entries@.map_values(|e: (K, CalculatorComplex)| (e.0@, e.1))
    }

    /// An operator without terms.
    pub fn new() -> (r: Self)
        ensures
            r@ =~= Map::empty(),
            r.terms() =~= Seq::empty(),
    {
        let r = Operator { entries: Vec::new(), rule: PhantomData };
        assert(r.terms() =~= Seq::empty());
        r
    }

    /// The number of terms. No product occurs twice among them, and no
    /// coefficient is zero.
    pub fn len(&self) -> (n: usize)
        ensures
            n == self.terms().len(),
            n == self@.len(),
            self@.dom().finite(),
            distinct_keys(self.terms()),
            forall|i: int| 0 <= i < self.terms().len() ==> !coeff_vanishes((#[trigger] self.terms()[i]).1),
            forall|key: K::V| self@.contains_key(key) ==> !coeff_vanishes(#[trigger] self@[key]),
    {
        proof {
            use_type_invariant(self);
            lemma_terms_map_len(self.terms());
            lemma_terms_map_values(self.terms());
        }
        self.entries.len()
    }

    /// Whether the operator has no terms.
    pub fn is_empty(&self) -> (b: bool)
        ensures
            b == (self.terms().len() == 0),
            b == (self@ =~= Map::empty()),
    {
        proof {
            use_type_invariant(self);
            lemma_terms_map_len(self.terms());
            if self.terms().len() > 0 {
                lemma_terms_map_at(self.terms(), 0);
            }
        }
        self.entries.len() == 0
    }

    /// The place of the term with the given product.
    fn find(&self, key: &K) -> (r: Option<usize>)
        ensures
            match r {
                Some(i) => i < self.terms().len() && self.terms()[i as int].0 == key@,
                None => !has_key(self.terms(), key@),
            },
    {
        let mut i: usize = 0;
        while i < self.entries.len()
            invariant
                i <= self.entries.len(),
                forall|k: int| 0 <= k < i ==> (#[trigger] self.terms()[k]).0 != key@,
            decreases self.entries.len() - i,
        {
            if self.entries[i].0.same_key(key) {
                return Some(i);
            }
            i += 1;
        }
        None
    }

    /// The coefficient of a product: zero where the operator has no such term.
    pub fn get(&self, key: &K) -> (r: CalculatorComplex)
        ensures
            r == coefficient_in(self@, key@),
    {
        proof {
            use_type_invariant(self);
        }
        match self.find(key) {
            Some(i) => {
                proof {
                    lemma_terms_map_at(self.terms(), i as int);
                }
                coeff_clone(&self.entries[i].1)
            },
            None => coeff_from_ints(0, 0),
        }
    }

    /// Sets the coefficient of a product, whatever the rule of the operator
    /// says, and returns the one it had.
    fn put(&mut self, key: K, value: CalculatorComplex) -> (r: Result<
        Option<CalculatorComplex>,
        StruqtureError,
    >)
        ensures
            final(self)@ == with_term(old(self)@, key@, value),
            r == Ok::<Option<CalculatorComplex>, StruqtureError>(
                if old(self)@.contains_key(key@) {
                    Some(old(self)@[key@])
                } else {
                    None
                },
            ),
            final(self).terms() == terms_with(old(self).terms(), key@, value),
    {
        proof {
            use_type_invariant(&*self);
        }
        let ghost before = self.terms();
        let found = self.find(&key);
        let vanishing = coeff_is_zero(&value);
        let mut entries: Vec<(K, CalculatorComplex)> = Vec::new();
        assert(entries@.map_values(|e: (K, CalculatorComplex)| (e.0@, e.1)) =~= Seq::empty());
        core::mem::swap(&mut self.entries, &mut entries);
        let r = match found {
            Some(i) => {
                proof {
                    lemma_terms_map_at(before, i as int);
                }
                let previous = coeff_clone(&entries[i].1);
                if vanishing {
                    proof {
                        lemma_terms_map_remove(before, i as int);
                    }
                    let _ = entries.remove(i);
                    assert(entries@.map_values(|e: (K, CalculatorComplex)| (e.0@, e.1)) =~= before.remove(i as int));
                } else {
                    proof {
                        lemma_terms_map_update(before, i as int, value);
                    }
                    entries.set(i, (key, value));
                    assert(entries@.map_values(|e: (K, CalculatorComplex)| (e.0@, e.1)) =~= before.update(i as int, (key@, value)));
                }
                Ok(Some(previous))
            },
            None => {
                if !vanishing {
                    proof {
                        lemma_terms_map_push(before, key@, value);
                    }
                    entries.push((key, value));
                    assert(entries@.map_values(|e: (K, CalculatorComplex)| (e.0@, e.1)) =~= before.push((key@, value)));
                } else {
                    assert(terms_map(before).remove(key@) =~= terms_map(before));
                }
                Ok(None)
            },
        };
        core::mem::swap(&mut self.entries, &mut entries);
        r
    }

    /// Adds a term to the operator, whatever the rule of the operator says.
    fn put_sum(&mut self, key: K, value: CalculatorComplex) -> (r: Result<
        (),
        StruqtureError,
    >)
        ensures
            final(self)@ == plus_term(old(self)@, key@, value),
            final(self).terms() == terms_plus(old(self).terms(), key@, value),
            r.is_ok(),
    {
        let previous = self.get(&key);
        let sum = coeff_add(&previous, &value);
        let _ = self.put(key, sum);
        Ok(())
    }

    /// Sets the coefficient of a product, and returns the one it had.
    ///
    /// A coefficient that is zero takes the term out. Fails with
    /// `NonHermitianOperator`, and changes nothing, where the rule of the
    /// operator does not admit the coefficient for the product.
    pub fn set(&mut self, key: K, value: CalculatorComplex) -> (r: Result<
        Option<CalculatorComplex>,
        StruqtureError,
    >)
        ensures
            takes::<K, R>(key@, value) ==> final(self).terms() == terms_with(
                old(self).terms(),
                key@,
                value,
            ),
            takes::<K, R>(key@, value) ==> final(self)@ == with_term(old(self)@, key@, value) && r
                == Ok::<Option<CalculatorComplex>, StruqtureError>(
                if old(self)@.contains_key(key@) {
                    Some(old(self)@[key@])
                } else {
                    None
                },
            ),
            !takes::<K, R>(key@, value) ==> final(self)@ == old(self)@ && final(self).terms() == old(self).terms() && r == Err::<Option<CalculatorComplex>, StruqtureError>(
                StruqtureError::NonHermitianOperator,
            ),
    {
        if !coeff_is_zero(&value) && !R::check(&key, &value) {
            return Err(StruqtureError::NonHermitianOperator);
        }
        self.put(key, value)
    }

    /// Adds a term to the operator. The coefficient is added to the one that
    /// the product has; a sum that is zero takes the term out.
    ///
    /// Fails with `NonHermitianOperator`, and changes nothing, where the
    /// rule of the operator does not admit the sum for the product.
    pub fn add_operator_product(&mut self, key: K, value: CalculatorComplex) -> (r: Result<
        (),
        StruqtureError,
    >)
        ensures
            takes::<K, R>(key@, coeff_sum(coefficient_in(old(self)@, key@), value)) ==> final(self)@
                == plus_term(old(self)@, key@, value) && r.is_ok() && final(self).terms()
                == terms_plus(old(self).terms(), key@, value),
            !takes::<K, R>(key@, coeff_sum(coefficient_in(old(self)@, key@), value)) ==> final(self)@ == old(self)@ && final(self).terms() == old(self).terms() && r == Err::<
                (),
                StruqtureError,
            >(StruqtureError::NonHermitianOperator),
    {
        let previous = self.get(&key);
        let sum = coeff_add(&previous, &value);
        match self.set(key, sum) {
            Ok(_) => Ok(()),
            Err(e) => Err(e),
        }
    }

    /// Takes the term with the given product out, and returns its coefficient.
    pub fn remove(&mut self, key: &K) -> (r: Option<CalculatorComplex>)
        ensures
            final(self)@ == old(self)@.remove(key@),
            r == if old(self)@.contains_key(key@) {
                Some(old(self)@[key@])
            } else {
                None
            },
    {
        proof {
            use_type_invariant(&*self);
        }
        let ghost before = self.terms();
        match self.find(key) {
            Some(i) => {
                proof {
                    lemma_terms_map_at(before, i as int);
                    lemma_terms_map_remove(before, i as int);
                }
                let mut entries: Vec<(K, CalculatorComplex)> = Vec::new();
                assert(entries@.map_values(|e: (K, CalculatorComplex)| (e.0@, e.1)) =~= Seq::empty());
                core::mem::swap(&mut self.entries, &mut entries);
                let entry = entries.remove(i);
                assert(entries@.map_values(|e: (K, CalculatorComplex)| (e.0@, e.1)) =~= before.remove(i as int));
                core::mem::swap(&mut self.entries, &mut entries);
                Some(entry.1)
            },
            None => {
                assert(terms_map(before).remove(key@) =~= terms_map(before));
                None
            },
        }
    }

    /// The products of the terms, in the order in which the operator holds them.
    pub fn keys(&self) -> (r: Vec<K>)
        ensures
            r@.len() == self.terms().len(),
            forall|i: int| 0 <= i < r@.len() ==> (#[trigger] r@[i])@ == self.terms()[i].0,
    {
        let mut r: Vec<K> = Vec::new();
        let mut i: usize = 0;
        while i < self.entries.len()
            invariant
                i <= self.entries.len(),
                r@.len() == i,
                forall|k: int| 0 <= k < i ==> (#[trigger] r@[k])@ == self.terms()[k].0,
            decreases self.entries.len() - i,
        {
            r.push(self.entries[i].0.copy_key());
            i += 1;
        }
        r
    }

    /// The coefficients of the terms, in the order in which the operator holds them.
    pub fn values(&self) -> (r: Vec<CalculatorComplex>)
        ensures
            r@.len() == self.terms().len(),
            forall|i: int| 0 <= i < r@.len() ==> #[trigger] r@[i] == self.terms()[i].1,
    {
        let mut r: Vec<CalculatorComplex> = Vec::new();
        let mut i: usize = 0;
        while i < self.entries.len()
            invariant
                i <= self.entries.len(),
                r@.len() == i,
                forall|k: int| 0 <= k < i ==> #[trigger] r@[k] == self.terms()[k].1,
            decreases self.entries.len() - i,
        {
            r.push(coeff_clone(&self.entries[i].1));
            i += 1;
        }
        r
    }

    /// The sum of two operators.
    ///
    /// The terms of `other` are added to this operator one after the other.
    pub fn add(self, other: Operator<K, R>) -> (r: Operator<K, R>)
        ensures
            r@ == accumulate(self@, other.terms()),
            r@ == map_sum(self@, other@),
    {
        proof {
            use_type_invariant(&other);
            lemma_accumulate_distinct(self@, other.terms());
        }
        let mut r = self;
        let mut i: usize = 0;
        assert(other.terms().take(0) =~= Seq::empty());
        while i < other.entries.len()
            invariant
                i <= other.entries.len(),
                other.entries.len() == other.terms().len(),
                r@ == accumulate(self@, other.terms().take(i as int)),
            decreases other.entries.len() - i,
        {
            proof {
                lemma_accumulate_push(
                    self@,
                    other.terms().take(i as int),
                    other.terms()[i as int].0,
                    other.terms()[i as int].1,
                );
                assert(other.terms().take(i as int).push(other.terms()[i as int])
                    =~= other.terms().take(i + 1));
            }
            let key = other.entries[i].0.copy_key();
            let value = coeff_clone(&other.entries[i].1);
            let _ = r.put_sum(key, value);
            i += 1;
        }
        assert(other.terms().take(i as int) =~= other.terms());
        r
    }

    /// The operator with a change made to each coefficient.
    fn with_change<R2: CoefficientRule<K>>(&self, change: CoefficientChange) -> (r: Operator<
        K,
        R2,
    >)
        ensures
            r@ == changed(self@, change),
    {
        proof {
            use_type_invariant(self);
        }
        let mut r: Operator<K, R2> = Operator::new();
        let mut i: usize = 0;
        assert(self.terms().take(0) =~= Seq::empty());
        assert(changed(terms_map(self.terms().take(0)), change) =~= Map::empty());
        while i < self.entries.len()
            invariant
                i <= self.entries.len(),
                self.entries.len() == self.terms().len(),
                distinct_keys(self.terms()),
                r@ =~= changed(terms_map(self.terms().take(i as int)), change),
            decreases self.entries.len() - i,
        {
            proof {
                lemma_terms_map_take(self.terms(), i as int);
            }
            let key = self.entries[i].0.copy_key();
            let value = change.apply(&self.entries[i].1);
            let _ = r.put(key, value);
            i += 1;
        }
        assert(self.terms().take(i as int) =~= self.terms());
        r
    }

    /// The operator times `-1`: each coefficient is negated.
    pub fn neg(&self) -> (r: Operator<K, R>)
        ensures
            r@ == changed(self@, CoefficientChange::Negate),
    {
        self.with_change(CoefficientChange::Negate)
    }

    /// The operator times a number: each coefficient is multiplied by it.
    pub fn scale(&self, factor: CalculatorComplex) -> (r: Operator<K, Unrestricted>)
        ensures
            r@ == changed(self@, CoefficientChange::Scale(factor)),
    {
        self.with_change(CoefficientChange::Scale(factor))
    }

    /// The operator times a real number.
    pub fn scale_real(&self, factor: &CalculatorFloat) -> (r: Operator<K, R>)
        ensures
            r@ == changed(self@, CoefficientChange::Scale(coeff_of_real(*factor))),
    {
        self.with_change(CoefficientChange::Scale(coeff_from_real(factor)))
    }

    /// The operator as a general operator, which takes every coefficient.
    pub fn into_general(self) -> (r: Operator<K, Unrestricted>)
        ensures
            r@ == self@,
            r.terms() == self.terms(),
    {
        proof {
            use_type_invariant(&self);
        }
        Operator { entries: self.entries, rule: PhantomData }
    }

    /// The difference of two operators: the sum of the first and the negated
    /// second.
    pub fn sub(self, other: Operator<K, R>) -> (r: Operator<K, R>)
        ensures
            r@ == map_sum(self@, changed(other@, CoefficientChange::Negate)),
    {
        let negated = other.neg();
        self.add(negated)
    }

    /// The operator without the terms whose coefficients are numbers with a
    /// magnitude that is not above the threshold. Terms with symbolic
    /// coefficients stay.
    pub fn truncate(&self, threshold: &CalculatorFloat) -> (r: Operator<K, R>)
        ensures
            r@ == truncated(self@, *threshold),
    {
        proof {
            use_type_invariant(self);
        }
        let mut r: Operator<K, R> = Operator::new();
        let mut i: usize = 0;
        assert(self.terms().take(0) =~= Seq::empty());
        assert(truncated(terms_map(self.terms().take(0)), *threshold) =~= Map::empty());
        while i < self.entries.len()
            invariant
                i <= self.entries.len(),
                self.entries.len() == self.terms().len(),
                distinct_keys(self.terms()),
                forall|k: int| 0 <= k < self.terms().len() ==> !coeff_vanishes((#[trigger] self.terms()[k]).1),
                r@ =~= truncated(terms_map(self.terms().take(i as int)), *threshold),
            decreases self.entries.len() - i,
        {
            proof {
                lemma_terms_map_take(self.terms(), i as int);
                assert(!coeff_vanishes(self.terms()[i as int].1));
            }
            if coeff_survives(&self.entries[i].1, threshold) {
                let key = self.entries[i].0.copy_key();
                let value = coeff_clone(&self.entries[i].1);
                let _ = r.put(key, value);
            }
            i += 1;
        }
        assert(self.terms().take(i as int) =~= self.terms());
        r
    }

    /// Splits the operator into the terms whose products have the given
    /// shape, and the other terms.
    pub fn separate_into_n_terms(&self, shape: K::Shape) -> (r: Result<
        (Operator<K, R>, Operator<K, R>),
        StruqtureError,
    >)
        ensures
            r.is_ok(),
            r.unwrap().0@ == selected(self@, |key: K::V| K::has_shape(key, shape)),
            r.unwrap().1@ == selected(self@, |key: K::V| !K::has_shape(key, shape)),
    {
        proof {
            use_type_invariant(self);
        }
        let mut matching: Operator<K, R> = Operator::new();
        let mut others: Operator<K, R> = Operator::new();
        let ghost wanted = |key: K::V| K::has_shape(key, shape);
        let ghost unwanted = |key: K::V| !K::has_shape(key, shape);
        let mut i: usize = 0;
        assert(self.terms().take(0) =~= Seq::empty());
        assert(selected(terms_map(self.terms().take(0)), wanted) =~= Map::empty());
        assert(selected(terms_map(self.terms().take(0)), unwanted) =~= Map::empty());
        while i < self.entries.len()
            invariant
                i <= self.entries.len(),
                self.entries.len() == self.terms().len(),
                distinct_keys(self.terms()),
                forall|k: int| 0 <= k < self.terms().len() ==> !coeff_vanishes((#[trigger] self.terms()[k]).1),
                wanted == |key: K::V| K::has_shape(key, shape),
                unwanted == |key: K::V| !K::has_shape(key, shape),
                matching@ =~= selected(terms_map(self.terms().take(i as int)), wanted),
                others@ =~= selected(terms_map(self.terms().take(i as int)), unwanted),
            decreases self.entries.len() - i,
        {
            proof {
                lemma_terms_map_take(self.terms(), i as int);
                assert(!coeff_vanishes(self.terms()[i as int].1));
            }
            let key = self.entries[i].0.copy_key();
            let value = coeff_clone(&self.entries[i].1);
            if self.entries[i].0.key_has_shape(&shape) {
                let _ = matching.put(key, value);
            } else {
                let _ = others.put(key, value);
            }
            i += 1;
        }
        assert(self.terms().take(i as int) =~= self.terms());
        Ok((matching, others))
    }

    /// The number of sites or modes that the operator reaches: the largest
    /// span among its products, or 0 where it has no terms.
    pub fn current_span(&self) -> (n: usize)
        ensures
            n == reach::<K>(self.terms()),
    {
        let mut best: usize = 0;
        let mut i: usize = 0;
        assert(self.terms().take(0) =~= Seq::empty());
        while i < self.entries.len()
            invariant
                i <= self.entries.len(),
                self.entries.len() == self.terms().len(),
                best == reach::<K>(self.terms().take(i as int)),
            decreases self.entries.len() - i,
        {
            proof {
                assert(self.terms().take(i + 1).drop_last() =~= self.terms().take(i as int));
            }
            let here = self.entries[i].0.key_span();
            if here > best {
                best = here;
            }
            i += 1;
        }
        assert(self.terms().take(i as int) =~= self.terms());
        best
    }

    /// The terms of the operator, in the order in which it holds them.
    pub fn into_terms(self) -> (r: Vec<(K, CalculatorComplex)>)
        ensures
            r@.map_values(|t: (K, CalculatorComplex)| (t.0@, t.1)) == self.terms(),
    {
        self.entries
    }

    /// The product of the term at place `i`.
    pub fn key_at(&self, i: usize) -> (r: &K)
        requires
            i < self.terms().len(),
        ensures
            r@ == self.terms()[i as int].0,
    {
        &self.entries[i].0
    }

    /// The coefficient of the term at place `i`.
    pub fn value_at(&self, i: usize) -> (r: &CalculatorComplex)
        requires
            i < self.terms().len(),
        ensures
            *r == self.terms()[i as int].1,
    {
        &self.entries[i].1
    }
}

impl<K: ConjugateKey, R: CoefficientRule<K>> Operator<K, R> {
    /// The adjoint of the operator.
    ///
    /// Terms whose products have the same adjoint are summed.
    pub fn hermitian_conjugate(&self) -> (r: Operator<K, R>)
        ensures
            r@ == accumulate(Map::empty(), conjugate_terms::<K>(self.terms())),
    {
        let mut r: Operator<K, R> = Operator::new();
        let mut i: usize = 0;
        let ghost all = conjugate_terms::<K>(self.terms());
        assert(all.take(0) =~= Seq::empty());
        while i < self.entries.len()
            invariant
                i <= self.entries.len(),
                self.entries.len() == self.terms().len(),
                all == conjugate_terms::<K>(self.terms()),
                r@ == accumulate(Map::empty(), all.take(i as int)),
            decreases self.entries.len() - i,
        {
            proof {
                lemma_accumulate_push(Map::empty(), all.take(i as int), all[i as int].0, all[i as int].1);
                assert(all.take(i as int).push(all[i as int]) =~= all.take(i + 1));
            }
            let (key, sign) = self.entries[i].0.key_conjugate();
            let conjugated = coeff_conj(&self.entries[i].1);
            let value = coeff_mul(&conjugated, &coeff_from_sign(sign));
            let _ = r.put_sum(key, value);
            i += 1;
        }
        assert(all.take(i as int) =~= all);
        r
    }
}

impl<K: OperatorKey> Operator<K, Unrestricted> {
    /// The operator that a row of terms adds up to.
    pub fn from_terms(terms: Vec<(K, CalculatorComplex)>) -> (r: Operator<K, Unrestricted>)
        ensures
            r@ == accumulate(Map::empty(), terms@.map_values(|t: (K, CalculatorComplex)| (t.0@, t.1))),
    {
        let mut r: Operator<K, Unrestricted> = Operator::new();
        r.extend(terms);
        r
    }

    /// Adds a row of terms to the operator, one after the other.
    pub fn extend(&mut self, terms: Vec<(K, CalculatorComplex)>)
        ensures
            final(self)@ == accumulate(
                old(self)@,
                terms@.map_values(|t: (K, CalculatorComplex)| (t.0@, t.1)),
            ),
    {
        let ghost all = terms@.map_values(|t: (K, CalculatorComplex)| (t.0@, t.1));
        let mut i: usize = 0;
        assert(all.take(0) =~= Seq::empty());
        while i < terms.len()
            invariant
                i <= terms.len(),
                all == terms@.map_values(|t: (K, CalculatorComplex)| (t.0@, t.1)),
                self@ == accumulate(old(self)@, all.take(i as int)),
            decreases terms.len() - i,
        {
            proof {
                lemma_accumulate_push(old(self)@, all.take(i as int), all[i as int].0, all[i as int].1);
                assert(all.take(i as int).push(all[i as int]) =~= all.take(i + 1));
            }
            let key = terms[i].0.copy_key();
            let value = coeff_clone(&terms[i].1);
            let _ = self.put_sum(key, value);
            i += 1;
        }
        assert(all.take(i as int) =~= all);
    }
}

/// The coefficient of a term of a product: the product of the coefficients
/// of the factors, times the phase of the term where that is not one.
pub open spec fn product_coefficient(
    a: CalculatorComplex,
    b: CalculatorComplex,
    phase: Phase,
) -> CalculatorComplex {
    if phase == Phase::One {
        coeff_product(a, b)
    } else {
        coeff_product(coeff_product(a, b), coeff_of_phase(phase))
    }
}

/// The terms of the product of two terms.
pub open spec fn term_products<K: MultiplyKey>(
    a: (K::V, CalculatorComplex),
    b: (K::V, CalculatorComplex),
) -> Seq<(K::V, CalculatorComplex)> {
    Seq::new(
        K::product(a.0, b.0).len(),
        |i: int| (K::product(a.0, b.0)[i].0, product_coefficient(a.1, b.1, K::product(a.0, b.0)[i].1)),
    )
}

/// The terms of the products of one term with each term of a row.
pub open spec fn row_products<K: MultiplyKey>(
    a: (K::V, CalculatorComplex),
    bs: Seq<(K::V, CalculatorComplex)>,
) -> Seq<(K::V, CalculatorComplex)>
    decreases bs.len(),
{
    if bs.len() == 0 {
        Seq::empty()
    } else {
        row_products::<K>(a, bs.drop_last()) + term_products::<K>(a, bs.last())
    }
}

/// The terms of the products of each term of one row with each term of
/// another, the first row outermost.
pub open spec fn all_products<K: MultiplyKey>(
    left: Seq<(K::V, CalculatorComplex)>,
    right: Seq<(K::V, CalculatorComplex)>,
) -> Seq<(K::V, CalculatorComplex)>
    decreases left.len(),
{
    if left.len() == 0 {
        Seq::empty()
    } else {
        all_products::<K>(left.drop_last(), right) + row_products::<K>(left.last(), right)
    }
}

/// Whether a product is the product of a term of the products of two
/// given products.
pub open spec fn among_products<K: MultiplyKey>(key: K::V, a: K::V, b: K::V) -> bool {
    exists|t: int| 0 <= t < K::product(a, b).len() && (#[trigger] K::product(a, b)[t]).0 == key
}

/// Whether a product comes from multiplying a term of one row with a term
/// of another.
pub open spec fn from_factors<K: MultiplyKey>(
    key: K::V,
    left: Seq<(K::V, CalculatorComplex)>,
    right: Seq<(K::V, CalculatorComplex)>,
) -> bool {
    exists|i: int, j: int|
        0 <= i < left.len() && 0 <= j < right.len() && among_products::<K>(
            key,
            (#[trigger] left[i]).0,
            (#[trigger] right[j]).0,
        )
}

/// Every term of a product of rows comes from a term of each row.
pub proof fn lemma_all_products_origin<K: MultiplyKey>(
    left: Seq<(K::V, CalculatorComplex)>,
    right: Seq<(K::V, CalculatorComplex)>,
)
    ensures
        forall|n: int|
            0 <= n < all_products::<K>(left, right).len() ==> from_factors::<K>(
                (#[trigger] all_products::<K>(left, right)[n]).0,
                left,
                right,
            ),
    decreases left.len(),
{
    let all = all_products::<K>(left, right);
    if left.len() > 0 {
        let head = all_products::<K>(left.drop_last(), right);
        let row = row_products::<K>(left.last(), right);
        lemma_all_products_origin::<K>(left.drop_last(), right);
        lemma_row_products_origin::<K>(left.last(), right);
        assert forall|n: int| 0 <= n < all.len() implies from_factors::<K>(
            (#[trigger] all[n]).0,
            left,
            right,
        ) by {
            if n < head.len() {
                assert(all[n] == head[n]);
                assert(from_factors::<K>(head[n].0, left.drop_last(), right));
                let (i, j) = choose|i: int, j: int|
                    0 <= i < left.drop_last().len() && 0 <= j < right.len() && among_products::<K>(
                        head[n].0,
                        (#[trigger] left.drop_last()[i]).0,
                        (#[trigger] right[j]).0,
                    );
                assert(left[i] == left.drop_last()[i]);
                assert(among_products::<K>(all[n].0, left[i].0, right[j].0));
            } else {
                let m = n - head.len();
                assert(all[n] == row[m]);
                let j = choose|j: int|
                    0 <= j < right.len() && among_products::<K>(
                        row[m].0,
                        left.last().0,
                        (#[trigger] right[j]).0,
                    );
                assert(among_products::<K>(all[n].0, left[left.len() - 1].0, right[j].0));
            }
        }
    } else {
        assert(all =~= Seq::empty());
    }
}

/// Every term of the products of one term with a row comes from a term of
/// the row.
pub proof fn lemma_row_products_origin<K: MultiplyKey>(
    a: (K::V, CalculatorComplex),
    bs: Seq<(K::V, CalculatorComplex)>,
)
    ensures
        forall|n: int|
            0 <= n < row_products::<K>(a, bs).len() ==> exists|j: int|
                0 <= j < bs.len() && among_products::<K>(
                    (#[trigger] row_products::<K>(a, bs)[n]).0,
                    a.0,
                    (#[trigger] bs[j]).0,
                ),
    decreases bs.len(),
{
    let all = row_products::<K>(a, bs);
    if bs.len() > 0 {
        let head = row_products::<K>(a, bs.drop_last());
        let last = term_products::<K>(a, bs.last());
        lemma_row_products_origin::<K>(a, bs.drop_last());
        assert forall|n: int| 0 <= n < all.len() implies exists|j: int|
            0 <= j < bs.len() && among_products::<K>((#[trigger] all[n]).0, a.0, (#[trigger] bs[j]).0) by {
            if n < head.len() {
                assert(all[n] == head[n]);
                let j = choose|j: int|
                    0 <= j < bs.drop_last().len() && among_products::<K>(
                        head[n].0,
                        a.0,
                        (#[trigger] bs.drop_last()[j]).0,
                    );
                assert(bs[j] == bs.drop_last()[j]);
                assert(among_products::<K>(all[n].0, a.0, bs[j].0));
            } else {
                let t = n - head.len();
                let j = bs.len() - 1;
                assert(all[n] == last[t]);
                assert(K::product(a.0, bs[j].0)[t].0 == all[n].0);
                assert(among_products::<K>(all[n].0, a.0, bs[j].0));
            }
        }
    } else {
        assert(all =~= Seq::empty());
    }
}

/// Whether no product of a row of terms reaches beyond a bound.
pub open spec fn terms_within<K: OperatorKey>(terms: Seq<(K::V, CalculatorComplex)>, bound: nat) -> bool {
    forall|i: int| 0 <= i < terms.len() ==> K::span((#[trigger] terms[i]).0) <= bound
}

/// Adding terms that stay within a bound to a row that stays within it
/// gives a row that stays within it.
pub proof fn lemma_accumulate_terms_within<K: OperatorKey>(
    terms: Seq<(K::V, CalculatorComplex)>,
    added: Seq<(K::V, CalculatorComplex)>,
    bound: nat,
)
    requires
        terms_within::<K>(terms, bound),
        terms_within::<K>(added, bound),
    ensures
        terms_within::<K>(accumulate_terms(terms, added), bound),
    decreases added.len(),
{
    if added.len() > 0 {
        let head = added.drop_last();
        assert forall|i: int| 0 <= i < head.len() implies K::span((#[trigger] head[i]).0)
            <= bound by {
            assert(head[i] == added[i]);
        }
        lemma_accumulate_terms_within::<K>(terms, head, bound);
        let before = accumulate_terms(terms, head);
        let key = added.last().0;
        assert(added[added.len() - 1].0 == key);
        let value = coeff_sum(coefficient_in(terms_map(before), key), added.last().1);
        let after = terms_with(before, key, value);
        assert forall|i: int| 0 <= i < after.len() implies K::span((#[trigger] after[i]).0)
            <= bound by {
            if has_key(before, key) {
                let p = place_of(before, key);
                if coeff_vanishes(value) {
                    let i0 = if i < p {
                        i
                    } else {
                        i + 1
                    };
                    assert(after[i] == before[i0]);
                } else {
                    if i != p {
                        assert(after[i] == before[i]);
                    }
                }
            } else if !coeff_vanishes(value) {
                if i < before.len() {
                    assert(after[i] == before[i]);
                }
            }
        }
    }
}

/// The products of terms that stay within a bound stay within it.
pub proof fn lemma_all_products_within<K: MultiplyKey>(
    left: Seq<(K::V, CalculatorComplex)>,
    right: Seq<(K::V, CalculatorComplex)>,
    bound: nat,
)
    requires
        terms_within::<K>(left, bound),
        terms_within::<K>(right, bound),
    ensures
        terms_within::<K>(all_products::<K>(left, right), bound),
{
    let all = all_products::<K>(left, right);
    lemma_all_products_origin::<K>(left, right);
    assert forall|n: int| 0 <= n < all.len() implies K::span((#[trigger] all[n]).0) <= bound by {
        assert(from_factors::<K>(all[n].0, left, right));
        let (i, j) = choose|i: int, j: int|
            0 <= i < left.len() && 0 <= j < right.len() && among_products::<K>(
                all[n].0,
                (#[trigger] left[i]).0,
                (#[trigger] right[j]).0,
            );
        let t = choose|t: int|
            0 <= t < K::product(left[i].0, right[j].0).len() && (#[trigger] K::product(
                left[i].0,
                right[j].0,
            )[t]).0 == all[n].0;
        K::lemma_product_span(left[i].0, right[j].0);
    }
}

impl<K: MultiplyKey, R: CoefficientRule<K>> Operator<K, R> {
    /// The product of two operators.
    ///
    /// Each term of this operator is multiplied with each term of the other,
    /// and the terms that come of it are added up in that order.
    pub fn mul<R2: CoefficientRule<K>>(&self, other: &Operator<K, R2>) -> (r: Operator<
        K,
        Unrestricted,
    >)
        ensures
            r@ == accumulate(Map::empty(), all_products::<K>(self.terms(), other.terms())),
            r.terms() == accumulate_terms(
                Seq::empty(),
                all_products::<K>(self.terms(), other.terms()),
            ),
    {
        let mut r: Operator<K, Unrestricted> = Operator::new();
        let mut i: usize = 0;
        assert(self.terms().take(0) =~= Seq::empty());
        while i < self.entries.len()
            invariant
                i <= self.entries.len(),
                self.entries.len() == self.terms().len(),
                r@ == accumulate(
                    Map::empty(),
                    all_products::<K>(self.terms().take(i as int), other.terms()),
                ),
                r.terms() == accumulate_terms(
                    Seq::empty(),
                    all_products::<K>(self.terms().take(i as int), other.terms()),
                ),
            decreases self.entries.len() - i,
        {
            let ghost done = all_products::<K>(self.terms().take(i as int), other.terms());
            let ghost a = self.terms()[i as int];
            let mut j: usize = 0;
            assert(other.terms().take(0) =~= Seq::empty());
            assert(done + row_products::<K>(a, other.terms().take(0)) =~= done);
            while j < other.entries.len()
                invariant
                    j <= other.entries.len(),
                    i < self.entries.len(),
                    self.entries.len() == self.terms().len(),
                    other.entries.len() == other.terms().len(),
                    a == self.terms()[i as int],
                    r@ == accumulate(
                        Map::empty(),
                        done + row_products::<K>(a, other.terms().take(j as int)),
                    ),
                    r.terms() == accumulate_terms(
                        Seq::empty(),
                        done + row_products::<K>(a, other.terms().take(j as int)),
                    ),
                decreases other.entries.len() - j,
            {
                let ghost row = done + row_products::<K>(a, other.terms().take(j as int));
                let ghost b = other.terms()[j as int];
                let ghost new_terms = term_products::<K>(a, b);
                let products = self.entries[i].0.key_product(&other.entries[j].0);
                let both = coeff_mul(&self.entries[i].1, &other.entries[j].1);
                let mut t: usize = 0;
                assert(row + new_terms.take(0) =~= row);
                while t < products.len()
                    invariant
                        t <= products.len(),
                        products@.len() == K::product(a.0, b.0).len(),
                        forall|k: int|
                            0 <= k < products@.len() ==> (#[trigger] products@[k]).0@ == K::product(
                                a.0,
                                b.0,
                            )[k].0 && products@[k].1 == K::product(a.0, b.0)[k].1,
                        new_terms == term_products::<K>(a, b),
                        both == coeff_product(a.1, b.1),
                        r@ == accumulate(Map::empty(), row + new_terms.take(t as int)),
                        r.terms() == accumulate_terms(Seq::empty(), row + new_terms.take(t as int)),
                    decreases products.len() - t,
                {
                    proof {
                        lemma_accumulate_push(
                            Map::empty(),
                            row + new_terms.take(t as int),
                            new_terms[t as int].0,
                            new_terms[t as int].1,
                        );
                        assert((row + new_terms.take(t as int)).push(new_terms[t as int]) =~= row
                            + new_terms.take(t + 1));
                        assert((row + new_terms.take(t + 1)).drop_last() =~= row + new_terms.take(
                            t as int,
                        ));
                    }
                    let key = products[t].0.copy_key();
                    let value = match products[t].1 {
                        Phase::One => coeff_clone(&both),
                        phase => coeff_mul(&both, &coeff_from_phase(phase)),
                    };
                    let _ = r.put_sum(key, value);
                    t += 1;
                }
                proof {
                    assert(new_terms.take(t as int) =~= new_terms);
                    assert(other.terms().take(j + 1).drop_last() =~= other.terms().take(j as int));
                    assert(row + new_terms =~= done + row_products::<K>(a, other.terms().take(j + 1)));
                }
                j += 1;
            }
            proof {
                assert(other.terms().take(j as int) =~= other.terms());
                assert(self.terms().take(i + 1).drop_last() =~= self.terms().take(i as int));
            }
            i += 1;
        }
        assert(self.terms().take(i as int) =~= self.terms());
        r
    }
}

impl<K: OperatorKey, R: CoefficientRule<K>> Default for Operator<K, R> {
    fn default() -> (r: Self)
        ensures
            r@ =~= Map::empty(),
    {
        Operator::new()
    }
}

impl<K: OperatorKey, R: CoefficientRule<K>> Clone for Operator<K, R> {
    fn clone(&self) -> (r: Self)
        ensures
            r.terms() == self.terms(),
            r@ == self@,
    {
        proof {
            use_type_invariant(self);
        }
        let mut entries: Vec<(K, CalculatorComplex)> = Vec::new();
        let mut i: usize = 0;
        while i < self.entries.len()
            invariant
                i <= self.entries.len(),
                self.entries.len() == self.terms().len(),
                entries@.len() == i,
                forall|k: int|
                    0 <= k < i ==> (#[trigger] entries@[k]).0@ == self.terms()[k].0 && entries@[k].1
                        == self.terms()[k].1,
            decreases self.entries.len() - i,
        {
            entries.push((self.entries[i].0.copy_key(), coeff_clone(&self.entries[i].1)));
            i += 1;
        }
        assert(entries@.map_values(|e: (K, CalculatorComplex)| (e.0@, e.1)) =~= self.terms());
        Operator { entries, rule: PhantomData }
    }
}

impl<K: OperatorKey, R: CoefficientRule<K>> PartialEq for Operator<K, R> {
    fn eq(&self, other: &Self) -> (r: bool) {
        let n = self.len();
        let m = other.len();
        if n != m {
            return false;
        }
        let mut i: usize = 0;
        while i < self.entries.len()
            invariant
                i <= self.entries.len(),
                self.entries.len() == self.terms().len(),
                distinct_keys(self.terms()),
                distinct_keys(other.terms()),
                forall|k: int|
                    0 <= k < i ==> other@.contains_key((#[trigger] self.terms()[k]).0) && coeff_same(
                        self.terms()[k].1,
                        other@[self.terms()[k].0],
                    ),
            decreases self.entries.len() - i,
        {
            match other.find(&self.entries[i].0) {
                None => {
                    proof {
                        lemma_terms_map_at(self.terms(), i as int);
                    }
                    return false;
                },
                Some(j) => {
                    proof {
                        lemma_terms_map_at(self.terms(), i as int);
                        lemma_terms_map_at(other.terms(), j as int);
                    }
                    if !coeff_eq(&self.entries[i].1, &other.entries[j].1) {
                        return false;
                    }
                },
            }
            i += 1;
        }
        proof {
            assert forall|key: K::V| self@.contains_key(key) implies other@.contains_key(key)
                && coeff_same(#[trigger] self@[key], other@[key]) by {
                let k = place_of(self.terms(), key);
                lemma_terms_map_at(self.terms(), k);
            }
            assert(self@.dom().subset_of(other@.dom()));
            vstd::set_lib::lemma_subset_equality(self@.dom(), other@.dom());
        }
        true
    }
}

impl<K: OperatorKey, R: CoefficientRule<K>> PartialEqSpecImpl for Operator<K, R> {
    open spec fn obeys_eq_spec() -> bool {
        true
    }

    open spec fn eq_spec(&self, other: &Self) -> bool {
        same_terms(self@, other@)
    }
}

impl<K: OperatorKey, R: CoefficientRule<K>> View for Operator<K, R> {
    type V = TermMap<K::V>;

    open spec fn view(&self) -> TermMap<K::V> {
        terms_map(self.terms())
    }
}

} // verus!
