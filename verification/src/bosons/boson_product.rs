//! Products of bosonic creation and annihilation operators in normal order.

use crate::error::StruqtureError;
use crate::indices::{ascending, ascending_form, bounded, sort_ascending, span};
use crate::indices::lemma_ascending_form;
use crate::key::{
    rows_view, texts_view, CompactKey, ConjugateKey, MultiplyKey, OperatorKey, SingleTextKey,
    TextKey, TwoRowKey,
};
use crate::modes::{
    copy_list, drawn_from, format_modes, lemma_bounded_by_members, lemma_bounded_drawn,
    lemma_multiset_members, lemma_parse_mode_text, lemma_reorder_members, lemma_span_by_members,
    lemma_span_concat, lemma_span_drawn, list_concat, list_is_bounded, list_span, lists_equal,
    mode_text, parse_mode_text, parse_modes, reorder, reorder_modes, terms_match, ModeLists,
};
use crate::sign::{Phase, Sign};
use qoqo_calculator::CalculatorComplex;
use std::collections::HashMap;
use vstd::prelude::*;

verus! {

/// Whether two index lists are those of a bosonic product in canonical form:
/// both ascending, and no index the largest that the machine has.
pub open spec fn boson_canonical(lists: ModeLists) -> bool {
    &&& ascending(lists.creators)
    &&& ascending(lists.annihilators)
    &&& bounded(lists.creators)
    &&& bounded(lists.annihilators)
}

/// The canonical form of a raw bosonic product: both lists in ascending order.
pub open spec fn boson_canonical_form(raw: ModeLists) -> ModeLists {
    ModeLists {
        creators: ascending_form(raw.creators),
        annihilators: ascending_form(raw.annihilators),
    }
}

/// The number of modes that a product reaches: one more than its largest index.
pub open spec fn mode_span(lists: ModeLists) -> nat {
    if span(lists.creators) > span(lists.annihilators) {
        span(lists.creators)
    } else {
        span(lists.annihilators)
    }
}

/// The adjoint of a product of commuting operators: creators and
/// annihilators change places.
pub open spec fn mode_conjugate(lists: ModeLists) -> ModeLists {
    ModeLists { creators: lists.annihilators, annihilators: lists.creators }
}

/// The terms of the product of two bosonic products.
///
/// The annihilators of the left product and the creators of the right one
/// are brought into normal order. Each term of that takes the creators of
/// the left product in front and the annihilators of the right one behind.
pub open spec fn boson_product_terms(left: ModeLists, right: ModeLists) -> Seq<ModeLists> {
    let middle = reorder(left.annihilators, right.creators, false);
    Seq::new(
        middle.len(),
        |i: int|
            boson_canonical_form(
                ModeLists {
                    creators: left.creators + middle[i].0,
                    annihilators: middle[i].1 + right.annihilators,
                },
            ),
    )
}

/// A product of bosonic creation operators followed by bosonic annihilation
/// operators, each group in ascending order of its mode indices.
#[derive(Debug, PartialEq, Eq, Hash, PartialOrd, Ord)]
pub struct BosonProduct {
    creators: Vec<usize>,
    annihilators: Vec<usize>,
}

impl View for BosonProduct {
    type V = ModeLists;

    closed spec fn view(&self) -> ModeLists {
        ModeLists { creators: self.creators@, annihilators: self.annihilators@ }
    }
}

impl Clone for BosonProduct {
    fn clone(&self) -> (r: Self)
        ensures
            r@ == self@,
    {
        proof {
            use_type_invariant(self);
        }
        BosonProduct {
            creators: copy_list(self.creators.as_slice()),
            annihilators: copy_list(self.annihilators.as_slice()),
        }
    }
}

impl BosonProduct {
    #[verifier::type_invariant]
    closed spec fn well_formed(self) -> bool {
        boson_canonical(self@)
    }

    /// The product of the given creation and annihilation operators.
    ///
    /// Bosonic operators of one kind commute, so the indices may come in any
    /// order and may repeat. Fails with `InvalidIndex` where an index is the
    /// largest number of the machine.
    pub fn new(creators: &[usize], annihilators: &[usize]) -> (r: Result<Self, StruqtureError>)
        ensures
            match r {
                Ok(p) => bounded(creators@) && bounded(annihilators@) && p@ == boson_canonical_form(
                    ModeLists { creators: creators@, annihilators: annihilators@ },
                ) && boson_canonical(p@) && p@.creators.to_multiset() =~= creators@.to_multiset()
                    && p@.annihilators.to_multiset() =~= annihilators@.to_multiset(),
                Err(e) => e == StruqtureError::InvalidIndex && !(bounded(creators@) && bounded(
                    annihilators@,
                )),
            },
    {
        if !list_is_bounded(creators) || !list_is_bounded(annihilators) {
            return Err(StruqtureError::InvalidIndex);
        }
        let sorted_creators = sort_ascending(creators);
        let sorted_annihilators = sort_ascending(annihilators);
        proof {
            lemma_multiset_members(sorted_creators@, creators@);
            lemma_bounded_by_members(sorted_creators@, creators@);
            lemma_multiset_members(sorted_annihilators@, annihilators@);
            lemma_bounded_by_members(sorted_annihilators@, annihilators@);
        }
        Ok(BosonProduct { creators: sorted_creators, annihilators: sorted_annihilators })
    }

    /// The canonical product of the given operators together with the
    /// coefficient that goes with it. Reordering bosonic operators of one kind
    /// costs nothing, so the coefficient comes back as it is.
    pub fn create_valid_pair(
        creators: &[usize],
        annihilators: &[usize],
        value: CalculatorComplex,
    ) -> (r: Result<(Self, CalculatorComplex), StruqtureError>)
        ensures
            match r {
                Ok(pair) => bounded(creators@) && bounded(annihilators@) && pair.0@
                    == boson_canonical_form(
                    ModeLists { creators: creators@, annihilators: annihilators@ },
                ) && pair.1 == value,
                Err(e) => e == StruqtureError::InvalidIndex && !(bounded(creators@) && bounded(
                    annihilators@,
                )),
            },
    {
        match BosonProduct::new(creators, annihilators) {
            Ok(p) => Ok((p, value)),
            Err(e) => Err(e),
        }
    }

    /// The mode indices of the creation operators, in ascending order.
    pub fn creators(&self) -> (r: &Vec<usize>)
        ensures
            r@ == self@.creators,
            boson_canonical(self@),
    {
        proof {
            use_type_invariant(self);
        }
        &self.creators
    }

    /// The mode indices of the annihilation operators, in ascending order.
    pub fn annihilators(&self) -> (r: &Vec<usize>)
        ensures
            r@ == self@.annihilators,
            boson_canonical(self@),
    {
        proof {
            use_type_invariant(self);
        }
        &self.annihilators
    }

    /// The number of creation operators.
    pub fn number_creators(&self) -> (n: usize)
        ensures
            n == self@.creators.len(),
    {
        self.creators.len()
    }

    /// The number of annihilation operators.
    pub fn number_annihilators(&self) -> (n: usize)
        ensures
            n == self@.annihilators.len(),
    {
        self.annihilators.len()
    }

    /// The number of modes that the product reaches: one more than its
    /// largest mode index, or 0 for the product of nothing.
    pub fn current_number_modes(&self) -> (n: usize)
        ensures
            n == mode_span(self@),
    {
        proof {
            use_type_invariant(self);
        }
        let c = list_span(self.creators.as_slice());
        let a = list_span(self.annihilators.as_slice());
        if c > a {
            c
        } else {
            a
        }
    }

    /// The adjoint of the product, and the sign that goes with it.
    ///
    /// Creators and annihilators change places; bosonic operators commute, so
    /// the sign is always `+1`.
    pub fn hermitian_conjugate(&self) -> (r: (Self, Sign))
        ensures
            r.0@ == mode_conjugate(self@),
            r.1 == Sign::Plus,
    {
        proof {
            use_type_invariant(self);
        }
        (
            BosonProduct {
                creators: copy_list(self.annihilators.as_slice()),
                annihilators: copy_list(self.creators.as_slice()),
            },
            Sign::Plus,
        )
    }

    /// Whether the product is its own adjoint.
    pub fn is_natural_hermitian(&self) -> (b: bool)
        ensures
            b == (mode_conjugate(self@) == self@),
    {
        lists_equal(self.creators.as_slice(), self.annihilators.as_slice())
    }

    /// The product of two bosonic products, as a sum of products in normal
    /// order. Each term of the sum has the coefficient one.
    pub fn multiply(&self, other: &BosonProduct) -> (r: Vec<BosonProduct>)
        ensures
            r@.len() == boson_product_terms(self@, other@).len(),
            forall|i: int| 0 <= i < r@.len() ==> (#[trigger] r@[i])@ == boson_product_terms(self@, other@)[i],
    {
        proof {
            use_type_invariant(self);
            use_type_invariant(other);
            lemma_reorder_members(self@.annihilators, other@.creators, false);
        }
        let middle = reorder_modes(
            self.annihilators.as_slice(),
            other.creators.as_slice(),
            0,
            false,
        );
        assert(other.creators@.skip(0) =~= other.creators@);
        let ghost terms = reorder(self@.annihilators, other@.creators, false);
        let mut r: Vec<BosonProduct> = Vec::new();
        let mut i: usize = 0;
        while i < middle.len()
            invariant
                i <= middle.len(),
                terms == reorder(self@.annihilators, other@.creators, false),
                terms_match(middle@, terms),
                boson_canonical(self@),
                boson_canonical(other@),
                forall|k: int|
                    0 <= k < terms.len() ==> drawn_from((#[trigger] terms[k]).0, other@.creators)
                        && drawn_from(terms[k].1, self@.annihilators),
                r@.len() == i,
                forall|k: int| 0 <= k < i ==> (#[trigger] r@[k])@ == boson_product_terms(self@, other@)[k],
            decreases middle.len() - i,
        {
            let creators = list_concat(self.creators.as_slice(), middle[i].0.as_slice());
            let annihilators = list_concat(middle[i].1.as_slice(), other.annihilators.as_slice());
            proof {
                lemma_bounded_drawn(terms[i as int].0, other@.creators);
                lemma_bounded_drawn(terms[i as int].1, self@.annihilators);
            }
            match BosonProduct::new(creators.as_slice(), annihilators.as_slice()) {
                Ok(p) => {
                    r.push(p);
                },
                Err(_) => {
                    assert(false);
                },
            }
            i += 1;
        }
        r
    }

    /// The product with its modes relabelled: each mode that the mapping
    /// names gets the index that the mapping gives it, and the result is
    /// brought into canonical form.
    ///
    /// Fails with `InvalidIndex` where a mode gets the largest number of the
    /// machine as index.
    pub fn remap_modes(&self, mapping: &HashMap<usize, usize>) -> (r: Result<Self, StruqtureError>)
        ensures
            ({
                let raw = ModeLists {
                    creators: crate::modes::relabel(self@.creators, mapping@),
                    annihilators: crate::modes::relabel(self@.annihilators, mapping@),
                };
                match r {
                    Ok(p) => bounded(raw.creators) && bounded(raw.annihilators) && p@
                        == boson_canonical_form(raw),
                    Err(e) => e == StruqtureError::InvalidIndex && !(bounded(raw.creators)
                        && bounded(raw.annihilators)),
                }
            }),
    {
        let creators = crate::modes::relabel_list(self.creators.as_slice(), mapping);
        let annihilators = crate::modes::relabel_list(self.annihilators.as_slice(), mapping);
        BosonProduct::new(creators.as_slice(), annihilators.as_slice())
    }

    /// The text of the product: `c` and the index for each creator, then `a`
    /// and the index for each annihilator; `I` for the product of nothing.
    pub fn to_string(&self) -> (text: String)
        ensures
            text@ == mode_text(self@),
    {
        format_modes(self.creators.as_slice(), self.annihilators.as_slice())
    }

    /// Reads a product from its text.
    ///
    /// The indices of each kind may come in any order. Fails with
    /// `ParseMismatch` where the text is neither `I` nor a row of `c` tokens
    /// followed by a row of `a` tokens, and with `InvalidIndex` where an index
    /// is the largest number of the machine.
    pub fn from_str(text: &str) -> (r: Result<Self, StruqtureError>)
        ensures
            match parse_mode_text(text@) {
                None => r == Err::<Self, StruqtureError>(StruqtureError::ParseMismatch),
                Some(raw) => if bounded(raw.creators) && bounded(raw.annihilators) {
                    r.is_ok() && r.unwrap()@ == boson_canonical_form(raw)
                } else {
                    r == Err::<Self, StruqtureError>(StruqtureError::InvalidIndex)
                },
            },
    {
        match parse_modes(text) {
            None => Err(StruqtureError::ParseMismatch),
            Some(lists) => BosonProduct::new(lists.0.as_slice(), lists.1.as_slice()),
        }
    }
}

impl OperatorKey for BosonProduct {
    type Shape = (usize, usize);

    open spec fn span(v: ModeLists) -> nat {
        mode_span(v)
    }

    open spec fn has_shape(v: ModeLists, shape: (usize, usize)) -> bool {
        v.creators.len() == shape.0 && v.annihilators.len() == shape.1
    }

    fn same_key(&self, other: &Self) -> (b: bool) {
        lists_equal(self.creators.as_slice(), other.creators.as_slice()) && lists_equal(
            self.annihilators.as_slice(),
            other.annihilators.as_slice(),
        )
    }

    fn copy_key(&self) -> (r: Self) {
        self.clone()
    }

    fn key_span(&self) -> (n: usize) {
        self.current_number_modes()
    }

    fn key_has_shape(&self, shape: &(usize, usize)) -> (b: bool) {
        self.creators.len() == shape.0 && self.annihilators.len() == shape.1
    }
}

impl ConjugateKey for BosonProduct {
    open spec fn conjugate(v: ModeLists) -> ModeLists {
        mode_conjugate(v)
    }

    open spec fn conjugate_sign(v: ModeLists) -> Sign {
        Sign::Plus
    }

    open spec fn natural_hermitian(v: ModeLists) -> bool {
        mode_conjugate(v) == v
    }

    proof fn lemma_conjugate_span(v: ModeLists) {
    }

    fn key_conjugate(&self) -> (r: (Self, Sign)) {
        self.hermitian_conjugate()
    }

    fn key_is_natural_hermitian(&self) -> (b: bool) {
        self.is_natural_hermitian()
    }
}

impl MultiplyKey for BosonProduct {
    open spec fn product(a: ModeLists, b: ModeLists) -> Seq<(ModeLists, Phase)> {
        Seq::new(
            boson_product_terms(a, b).len(),
            |i: int| (boson_product_terms(a, b)[i], Phase::One),
        )
    }

    proof fn lemma_product_span(a: ModeLists, b: ModeLists) {
        let middle = reorder(a.annihilators, b.creators, false);
        lemma_reorder_members(a.annihilators, b.creators, false);
        assert forall|i: int| 0 <= i < Self::product(a, b).len() implies Self::span(
            (#[trigger] Self::product(a, b)[i]).0,
        ) <= Self::span(a) || Self::span(Self::product(a, b)[i].0) <= Self::span(b) by {
            let creators = a.creators + middle[i].0;
            let annihilators = middle[i].1 + b.annihilators;
            lemma_ascending_form(creators);
            lemma_ascending_form(annihilators);
            lemma_multiset_members(ascending_form(creators), creators);
            lemma_multiset_members(ascending_form(annihilators), annihilators);
            lemma_span_by_members(ascending_form(creators), creators);
            lemma_span_by_members(ascending_form(annihilators), annihilators);
            lemma_span_concat(a.creators, middle[i].0);
            lemma_span_concat(middle[i].1, b.annihilators);
            lemma_span_drawn(middle[i].0, b.creators);
            lemma_span_drawn(middle[i].1, a.annihilators);
        }
    }

    fn key_product(&self, other: &Self) -> (r: Vec<(Self, Phase)>) {
        let products = self.multiply(other);
        let mut r: Vec<(BosonProduct, Phase)> = Vec::new();
        let mut i: usize = 0;
        while i < products.len()
            invariant
                i <= products.len(),
                products@.len() == boson_product_terms(self@, other@).len(),
                forall|k: int|
                    0 <= k < products@.len() ==> (#[trigger] products@[k])@ == boson_product_terms(
                        self@,
                        other@,
                    )[k],
                r@.len() == i,
                forall|k: int|
                    0 <= k < i ==> (#[trigger] r@[k]).0@ == boson_product_terms(self@, other@)[k]
                        && r@[k].1 == Phase::One,
            decreases products.len() - i,
        {
            r.push((products[i].clone(), Phase::One));
            i += 1;
        }
        r
    }
}

/// Reading the text of a canonical product gives the product back.
pub proof fn lemma_boson_text_round_trip(lists: ModeLists)
    requires
        boson_canonical(lists),
    ensures
        parse_mode_text(mode_text(lists)) == Some(lists),
        boson_canonical_form(lists) == lists,
{
    lemma_parse_mode_text(lists);
    crate::indices::lemma_ascending_unique(lists.creators, ascending_form(lists.creators));
    crate::indices::lemma_ascending_unique(lists.annihilators, ascending_form(lists.annihilators));
}

/// Hermiticity. The adjoint of the adjoint of a product is the product
/// itself; the sign of each step is `+1`.
pub proof fn lemma_boson_conjugate_twice(lists: ModeLists)
    ensures
        mode_conjugate(mode_conjugate(lists)) == lists,
        boson_canonical(lists) ==> boson_canonical(mode_conjugate(lists)),
{
}

/// A raw bosonic product whose creators and annihilators have been
/// permuted, each by a row of exchanges, has the canonical form of the
/// product before.
pub proof fn lemma_boson_permutation(
    raw: ModeLists,
    creator_swaps: Seq<(int, int)>,
    annihilator_swaps: Seq<(int, int)>,
)
    requires
        crate::indices::valid_swaps(raw.creators.len(), creator_swaps),
        crate::indices::valid_swaps(raw.annihilators.len(), annihilator_swaps),
    ensures
        boson_canonical_form(
            ModeLists {
                creators: crate::indices::after_swaps(raw.creators, creator_swaps),
                annihilators: crate::indices::after_swaps(raw.annihilators, annihilator_swaps),
            },
        ) == boson_canonical_form(raw),
{
    crate::indices::lemma_permutation_sign(raw.creators, creator_swaps);
    crate::indices::lemma_permutation_sign(raw.annihilators, annihilator_swaps);
}

/// Canonicalisation idempotence. The canonical form of a raw product is
/// canonical; its text reads back as the same product, which is its own
/// canonical form: writing and reading a product and bringing it into
/// canonical form again changes nothing.
pub proof fn lemma_boson_idempotence(raw: ModeLists)
    requires
        bounded(raw.creators),
        bounded(raw.annihilators),
    ensures
        boson_canonical(boson_canonical_form(raw)),
        parse_mode_text(mode_text(boson_canonical_form(raw))) == Some(boson_canonical_form(raw)),
        boson_canonical_form(boson_canonical_form(raw)) == boson_canonical_form(raw),
{
    let p = boson_canonical_form(raw);
    lemma_ascending_form(raw.creators);
    lemma_ascending_form(raw.annihilators);
    lemma_multiset_members(p.creators, raw.creators);
    lemma_multiset_members(p.annihilators, raw.annihilators);
    lemma_bounded_by_members(p.creators, raw.creators);
    lemma_bounded_by_members(p.annihilators, raw.annihilators);
    lemma_boson_text_round_trip(p);
}

/// The bosonic product that a text names, where it names one.
pub open spec fn boson_of_text(text: Seq<char>) -> Option<ModeLists> {
    match parse_mode_text(text) {
        Some(raw) => if bounded(raw.creators) && bounded(raw.annihilators) {
            Some(boson_canonical_form(raw))
        } else {
            None
        },
        None => None,
    }
}

impl TextKey for BosonProduct {
    open spec fn arity() -> nat {
        1
    }

    open spec fn canonical(v: ModeLists) -> bool {
        boson_canonical(v)
    }

    open spec fn texts(v: ModeLists) -> Seq<Seq<char>> {
        seq![mode_text(v)]
    }

    open spec fn of_texts(texts: Seq<Seq<char>>) -> Option<ModeLists> {
        if texts.len() == 1 {
            boson_of_text(texts[0])
        } else {
            None
        }
    }

    proof fn lemma_texts(v: ModeLists) {
        lemma_boson_text_round_trip(v);
    }

    open spec fn family() -> Seq<char> {
        "Boson"@
    }

    fn key_family() -> (r: String) {
        "Boson".to_owned()
    }

    fn key_arity() -> (n: usize) {
        1
    }

    fn key_texts(&self) -> (r: Vec<String>) {
        let mut r: Vec<String> = Vec::new();
        let text = self.to_string();
        let _ = self.creators();
        r.push(text);
        assert(texts_view(r@) =~= seq![mode_text(self@)]);
        r
    }

    fn key_from_texts(texts: &Vec<String>, from: usize) -> (r: Option<Self>) {
        assert(texts_view(texts@).subrange(from as int, from + 1)[0] == texts@[from as int]@);
        match BosonProduct::from_str(texts[from].as_str()) {
            Ok(key) => Some(key),
            Err(_) => None,
        }
    }
}

impl SingleTextKey for BosonProduct {
    proof fn lemma_single() {
    }
}

/// The bosonic product that two index lists describe, where they describe one.
pub open spec fn boson_of_rows(creators: Seq<usize>, annihilators: Seq<usize>) -> Option<ModeLists> {
    let raw = ModeLists { creators, annihilators };
    if bounded(creators) && bounded(annihilators) {
        Some(boson_canonical_form(raw))
    } else {
        None
    }
}

impl CompactKey for BosonProduct {
    open spec fn row_count() -> nat {
        2
    }

    open spec fn compact_canonical(v: ModeLists) -> bool {
        boson_canonical(v)
    }

    open spec fn rows(v: ModeLists) -> Seq<Seq<usize>> {
        seq![v.creators, v.annihilators]
    }

    open spec fn of_rows(rows: Seq<Seq<usize>>) -> Option<ModeLists> {
        if rows.len() == 2 {
            boson_of_rows(rows[0], rows[1])
        } else {
            None
        }
    }

    proof fn lemma_rows(v: ModeLists) {
        lemma_boson_text_round_trip(v);
    }

    fn key_row_count() -> (n: usize) {
        2
    }

    fn key_rows(&self) -> (r: Vec<Vec<usize>>) {
        let mut r: Vec<Vec<usize>> = Vec::new();
        r.push(copy_list(self.creators().as_slice()));
        r.push(copy_list(self.annihilators().as_slice()));
        assert(rows_view(r@) =~= seq![self@.creators, self@.annihilators]);
        r
    }

    fn key_from_rows(rows: &Vec<Vec<usize>>, from: usize) -> (r: Option<Self>) {
        let count = rows.len();
        assert(Self::row_count() == 2);
        assert(from + 2 <= count);
        assert(rows_view(rows@).len() == rows@.len());
        assert(rows_view(rows@).subrange(from as int, from + 2)[0] == rows@[from as int]@);
        assert(rows_view(rows@).subrange(from as int, from + 2)[1] == rows@[from + 1]@);
        match BosonProduct::new(rows[from].as_slice(), rows[from + 1].as_slice()) {
            Ok(key) => Some(key),
            Err(_) => None,
        }
    }
}

impl TwoRowKey for BosonProduct {
    proof fn lemma_two_rows() {
    }
}

} // verus!
