//! Bosonic products that stand for themselves and their adjoints at once.
//!
//! A Hermitian operator holds each product together with its adjoint. Of
//! the two only one is kept: the one whose creators do not come after its
//! annihilators in the order of a dictionary.

use crate::bosons::boson_product::{boson_canonical, boson_canonical_form, mode_conjugate, mode_span};
use crate::coefficient::{coeff_conj, coeff_conjugate};
use crate::error::StruqtureError;
use crate::indices::{bounded, sort_ascending};
use crate::key::{
    rows_view, texts_view, CompactKey, ConjugateKey, OperatorKey, SingleTextKey, TextKey, TwoRowKey,
};
use crate::modes::{
    copy_list, format_modes, lemma_bounded_by_members, lemma_lex_less, lemma_multiset_members,
    lex_less, list_is_bounded, list_less, list_span, lists_equal, mode_text, parse_mode_text,
    parse_modes, ModeLists,
};
use crate::sign::Sign;
use qoqo_calculator::CalculatorComplex;
use vstd::prelude::*;

verus! {

/// Whether index lists are those of the product that is kept of a product
/// and its adjoint: canonical, and the creators not after the annihilators.
pub open spec fn hermitian_boson_canonical(lists: ModeLists) -> bool {
    &&& boson_canonical(lists)
    &&& !lex_less(lists.annihilators, lists.creators)
}

/// Whether the canonical form of a raw product is the adjoint of the
/// product that is kept.
pub open spec fn boson_needs_conjugation(raw: ModeLists) -> bool {
    lex_less(boson_canonical_form(raw).annihilators, boson_canonical_form(raw).creators)
}

/// The product that is kept for a raw product: its canonical form, or the
/// adjoint of that.
pub open spec fn hermitian_boson_form(raw: ModeLists) -> ModeLists {
    if boson_needs_conjugation(raw) {
        mode_conjugate(boson_canonical_form(raw))
    } else {
        boson_canonical_form(raw)
    }
}

/// A bosonic product in normal order that stands for itself and its adjoint.
#[derive(Debug, PartialEq, Eq, Hash, PartialOrd, Ord)]
pub struct HermitianBosonProduct {
    creators: Vec<usize>,
    annihilators: Vec<usize>,
}

impl View for HermitianBosonProduct {
    type V = ModeLists;

    closed spec fn view(&self) -> ModeLists {
        ModeLists { creators: self.creators@, annihilators: self.annihilators@ }
    }
}

impl Clone for HermitianBosonProduct {
    fn clone(&self) -> (r: Self)
        ensures
            r@ == self@,
    {
        proof {
            use_type_invariant(self);
        }
        HermitianBosonProduct {
            creators: copy_list(self.creators.as_slice()),
            annihilators: copy_list(self.annihilators.as_slice()),
        }
    }
}

impl HermitianBosonProduct {
    #[verifier::type_invariant]
    closed spec fn well_formed(self) -> bool {
        hermitian_boson_canonical(self@)
    }

    /// The product of the given creation and annihilation operators, where
    /// it is the one that is kept of it and its adjoint.
    ///
    /// The indices of each kind may come in any order. Fails with
    /// `InvalidIndex` where the sorted annihilators come before the sorted
    /// creators, or an index is the largest number of the machine.
    pub fn new(creators: &[usize], annihilators: &[usize]) -> (r: Result<Self, StruqtureError>)
        ensures
            ({
                let raw = ModeLists { creators: creators@, annihilators: annihilators@ };
                if bounded(creators@) && bounded(annihilators@) && !boson_needs_conjugation(raw) {
                    r.is_ok() && r.unwrap()@ == boson_canonical_form(raw)
                        && hermitian_boson_canonical(r.unwrap()@)
                } else {
                    r == Err::<Self, StruqtureError>(StruqtureError::InvalidIndex)
                }
            }),
    {
        if !list_is_bounded(creators) || !list_is_bounded(annihilators) {
            return Err(StruqtureError::InvalidIndex);
        }
        let sorted_creators = sort_ascending(creators);
        let sorted_annihilators = sort_ascending(annihilators);
        proof {
            lemma_multiset_members(sorted_creators@, creators@);
            lemma_bounded_by_members(sorted_creators@, creators@);
            lemma_multiset_members(sorted_annihilators@, annihilators@);
            lemma_bounded_by_members(sorted_annihilators@, annihilators@);
        }
        if list_less(sorted_annihilators.as_slice(), sorted_creators.as_slice()) {
            return Err(StruqtureError::InvalidIndex);
        }
        Ok(HermitianBosonProduct { creators: sorted_creators, annihilators: sorted_annihilators })
    }

    /// The product that is kept for the given operators, together with the
    /// coefficient that goes with it: the given coefficient, or its complex
    /// conjugate where the adjoint of the given product is kept.
    ///
    /// Fails with `InvalidIndex` where an index is the largest number of the
    /// machine.
    pub fn create_valid_pair(
        creators: &[usize],
        annihilators: &[usize],
        value: CalculatorComplex,
    ) -> (r: Result<(Self, CalculatorComplex), StruqtureError>)
        ensures
            ({
                let raw = ModeLists { creators: creators@, annihilators: annihilators@ };
                if bounded(creators@) && bounded(annihilators@) {
                    r.is_ok() && r.unwrap().0@ == hermitian_boson_form(raw) && r.unwrap().1
                        == if boson_needs_conjugation(raw) {
                        coeff_conjugate(value)
                    } else {
                        value
                    }
                } else {
                    r == Err::<(Self, CalculatorComplex), StruqtureError>(
                        StruqtureError::InvalidIndex,
                    )
                }
            }),
    {
        if !list_is_bounded(creators) || !list_is_bounded(annihilators) {
            return Err(StruqtureError::InvalidIndex);
        }
        let sorted_creators = sort_ascending(creators);
        let sorted_annihilators = sort_ascending(annihilators);
        proof {
            lemma_multiset_members(sorted_creators@, creators@);
            lemma_bounded_by_members(sorted_creators@, creators@);
            lemma_multiset_members(sorted_annihilators@, annihilators@);
            lemma_bounded_by_members(sorted_annihilators@, annihilators@);
            lemma_lex_less(sorted_creators@, sorted_annihilators@);
        }
        if list_less(sorted_annihilators.as_slice(), sorted_creators.as_slice()) {
            Ok(
                (
                    HermitianBosonProduct {
                        creators: sorted_annihilators,
                        annihilators: sorted_creators,
                    },
                    coeff_conj(&value),
                ),
            )
        } else {
            Ok(
                (
                    HermitianBosonProduct {
                        creators: sorted_creators,
                        annihilators: sorted_annihilators,
                    },
                    value,
                ),
            )
        }
    }

    /// The mode indices of the creation operators, in ascending order.
    pub fn creators(&self) -> (r: &Vec<usize>)
        ensures
            r@ == self@.creators,
            hermitian_boson_canonical(self@),
    {
        proof {
            use_type_invariant(self);
        }
        &self.creators
    }

    /// The mode indices of the annihilation operators, in ascending order.
    pub fn annihilators(&self) -> (r: &Vec<usize>)
        ensures
            r@ == self@.annihilators,
            hermitian_boson_canonical(self@),
    {
        proof {
            use_type_invariant(self);
        }
        &self.annihilators
    }

    /// The number of creation operators.
    pub fn number_creators(&self) -> (n: usize)
        ensures
            n == self@.creators.len(),
    {
        self.creators.len()
    }

    /// The number of annihilation operators.
    pub fn number_annihilators(&self) -> (n: usize)
        ensures
            n == self@.annihilators.len(),
    {
        self.annihilators.len()
    }

    /// The number of modes that the product reaches.
    pub fn current_number_modes(&self) -> (n: usize)
        ensures
            n == mode_span(self@),
    {
        proof {
            use_type_invariant(self);
        }
        let c = list_span(self.creators.as_slice());
        let a = list_span(self.annihilators.as_slice());
        if c > a {
            c
        } else {
            a
        }
    }

    /// The adjoint of what the product stands for, and the sign that goes
    /// with it: the product stands for its adjoint too, so it is its own
    /// adjoint with the sign `+1`.
    pub fn hermitian_conjugate(&self) -> (r: (Self, Sign))
        ensures
            r.0@ == self@,
            r.1 == Sign::Plus,
    {
        (self.clone(), Sign::Plus)
    }

    /// Whether the product alone is its own adjoint: its creators are its
    /// annihilators.
    pub fn is_natural_hermitian(&self) -> (b: bool)
        ensures
            b == (self@.creators == self@.annihilators),
    {
        lists_equal(self.creators.as_slice(), self.annihilators.as_slice())
    }

    /// The text of the product.
    pub fn to_string(&self) -> (text: String)
        ensures
            text@ == mode_text(self@),
    {
        format_modes(self.creators.as_slice(), self.annihilators.as_slice())
    }

    /// Reads a product from its text.
    ///
    /// Fails with `ParseMismatch` where the text is neither `I` nor a row of
    /// `c` tokens followed by a row of `a` tokens, and with `InvalidIndex`
    /// where the product is not the one that is kept of it and its adjoint,
    /// or an index is the largest number of the machine.
    pub fn from_str(text: &str) -> (r: Result<Self, StruqtureError>)
        ensures
            match parse_mode_text(text@) {
                None => r == Err::<Self, StruqtureError>(StruqtureError::ParseMismatch),
                Some(raw) => if bounded(raw.creators) && bounded(raw.annihilators)
                    && !boson_needs_conjugation(raw) {
                    r.is_ok() && r.unwrap()@ == boson_canonical_form(raw)
                } else {
                    r == Err::<Self, StruqtureError>(StruqtureError::InvalidIndex)
                },
            },
    {
        match parse_modes(text) {
            None => Err(StruqtureError::ParseMismatch),
            Some(lists) => HermitianBosonProduct::new(lists.0.as_slice(), lists.1.as_slice()),
        }
    }
}

impl OperatorKey for HermitianBosonProduct {
    type Shape = (usize, usize);

    open spec fn span(v: ModeLists) -> nat {
        mode_span(v)
    }

    open spec fn has_shape(v: ModeLists, shape: (usize, usize)) -> bool {
        v.creators.len() == shape.0 && v.annihilators.len() == shape.1
    }

    fn same_key(&self, other: &Self) -> (b: bool) {
        lists_equal(self.creators.as_slice(), other.creators.as_slice()) && lists_equal(
            self.annihilators.as_slice(),
            other.annihilators.as_slice(),
        )
    }

    fn copy_key(&self) -> (r: Self) {
        self.clone()
    }

    fn key_span(&self) -> (n: usize) {
        self.current_number_modes()
    }

    fn key_has_shape(&self, shape: &(usize, usize)) -> (b: bool) {
        self.creators.len() == shape.0 && self.annihilators.len() == shape.1
    }
}

impl ConjugateKey for HermitianBosonProduct {
    open spec fn conjugate(v: ModeLists) -> ModeLists {
        v
    }

    open spec fn conjugate_sign(v: ModeLists) -> Sign {
        Sign::Plus
    }

    open spec fn natural_hermitian(v: ModeLists) -> bool {
        v.creators == v.annihilators
    }

    proof fn lemma_conjugate_span(v: ModeLists) {
    }

    fn key_conjugate(&self) -> (r: (Self, Sign)) {
        self.hermitian_conjugate()
    }

    fn key_is_natural_hermitian(&self) -> (b: bool) {
        self.is_natural_hermitian()
    }
}

/// The Hermitian bosonic product that a text names, where it names one.
pub open spec fn hermitian_boson_of_text(text: Seq<char>) -> Option<ModeLists> {
    match parse_mode_text(text) {
        Some(raw) => if bounded(raw.creators) && bounded(raw.annihilators)
            && !boson_needs_conjugation(raw) {
            Some(boson_canonical_form(raw))
        } else {
            None
        },
        None => None,
    }
}

impl TextKey for HermitianBosonProduct {
    open spec fn arity() -> nat {
        1
    }

    open spec fn canonical(v: ModeLists) -> bool {
        hermitian_boson_canonical(v)
    }

    open spec fn texts(v: ModeLists) -> Seq<Seq<char>> {
        seq![mode_text(v)]
    }

    open spec fn of_texts(texts: Seq<Seq<char>>) -> Option<ModeLists> {
        if texts.len() == 1 {
            hermitian_boson_of_text(texts[0])
        } else {
            None
        }
    }

    proof fn lemma_texts(v: ModeLists) {
        crate::bosons::boson_product::lemma_boson_text_round_trip(v);
    }

    open spec fn family() -> Seq<char> {
        "Boson"@
    }

    fn key_family() -> (r: String) {
        "Boson".to_owned()
    }

    fn key_arity() -> (n: usize) {
        1
    }

    fn key_texts(&self) -> (r: Vec<String>) {
        let mut r: Vec<String> = Vec::new();
        let text = self.to_string();
        let _ = self.creators();
        r.push(text);
        assert(texts_view(r@) =~= seq![mode_text(self@)]);
        r
    }

    fn key_from_texts(texts: &Vec<String>, from: usize) -> (r: Option<Self>) {
        assert(texts_view(texts@).subrange(from as int, from + 1)[0] == texts@[from as int]@);
        match HermitianBosonProduct::from_str(texts[from].as_str()) {
            Ok(key) => Some(key),
            Err(_) => None,
        }
    }
}

impl SingleTextKey for HermitianBosonProduct {
    proof fn lemma_single() {
    }
}

/// The Hermitian bosonic product that two index lists describe, where they describe one.
pub open spec fn hermitian_boson_of_rows(creators: Seq<usize>, annihilators: Seq<usize>) -> Option<ModeLists> {
    let raw = ModeLists { creators, annihilators };
    if bounded(creators) && bounded(annihilators) && !boson_needs_conjugation(raw) {
        Some(boson_canonical_form(raw))
    } else {
        None
    }
}

impl CompactKey for HermitianBosonProduct {
    open spec fn row_count() -> nat {
        2
    }

    open spec fn compact_canonical(v: ModeLists) -> bool {
        hermitian_boson_canonical(v)
    }

    open spec fn rows(v: ModeLists) -> Seq<Seq<usize>> {
        seq![v.creators, v.annihilators]
    }

    open spec fn of_rows(rows: Seq<Seq<usize>>) -> Option<ModeLists> {
        if rows.len() == 2 {
            hermitian_boson_of_rows(rows[0], rows[1])
        } else {
            None
        }
    }

    proof fn lemma_rows(v: ModeLists) {
        crate::bosons::boson_product::lemma_boson_text_round_trip(v);
    }

    fn key_row_count() -> (n: usize) {
        2
    }

    fn key_rows(&self) -> (r: Vec<Vec<usize>>) {
        let mut r: Vec<Vec<usize>> = Vec::new();
        r.push(copy_list(self.creators().as_slice()));
        r.push(copy_list(self.annihilators().as_slice()));
        assert(rows_view(r@) =~= seq![self@.creators, self@.annihilators]);
        r
    }

    fn key_from_rows(rows: &Vec<Vec<usize>>, from: usize) -> (r: Option<Self>) {
        let count = rows.len();
        assert(Self::row_count() == 2);
        assert(from + 2 <= count);
        assert(rows_view(rows@).len() == rows@.len());
        assert(rows_view(rows@).subrange(from as int, from + 2)[0] == rows@[from as int]@);
        assert(rows_view(rows@).subrange(from as int, from + 2)[1] == rows@[from + 1]@);
        match HermitianBosonProduct::new(rows[from].as_slice(), rows[from + 1].as_slice()) {
            Ok(key) => Some(key),
            Err(_) => None,
        }
    }
}

impl TwoRowKey for HermitianBosonProduct {
    proof fn lemma_two_rows() {
    }
}

} // verus!
