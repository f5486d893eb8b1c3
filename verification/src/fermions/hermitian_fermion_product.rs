//! Fermionic products that stand for themselves and their adjoints at once.
//!
//! A Hermitian operator holds each product together with its adjoint. Of
//! the two only one is kept: the one whose creators do not come after its
//! annihilators in the order of a dictionary.

use crate::coefficient::{coeff_conj, coeff_conjugate};
use crate::error::StruqtureError;
use crate::fermions::fermion_product::{
    fermion_canonical, fermion_canonical_form, fermion_conjugate, fermion_conjugate_sign,
    fermion_sign, fermion_span, signed, FermionProduct,
};
use crate::indices::bounded;
use crate::key::{
    rows_view, texts_view, CompactKey, ConjugateKey, OperatorKey, SingleTextKey, TextKey, TwoRowKey,
};
use crate::modes::{copy_list, lemma_lex_less, lex_less, list_less, mode_text, parse_mode_text, ModeLists};
use crate::sign::Sign;
use qoqo_calculator::CalculatorComplex;
use vstd::prelude::*;

verus! {

/// Whether index lists are those of the product that is kept of a product
/// and its adjoint: canonical, and the creators not after the annihilators.
pub open spec fn hermitian_fermion_canonical(lists: ModeLists) -> bool {
    &&& fermion_canonical(lists)
    &&& !lex_less(lists.annihilators, lists.creators)
}

/// Whether the canonical form of a raw product is the adjoint of the
/// product that is kept.
pub open spec fn fermion_needs_conjugation(raw: ModeLists) -> bool {
    lex_less(fermion_canonical_form(raw).annihilators, fermion_canonical_form(raw).creators)
}

/// The product that is kept for a raw product: its canonical form, or the
/// adjoint of that.
pub open spec fn hermitian_fermion_form(raw: ModeLists) -> ModeLists {
    if fermion_needs_conjugation(raw) {
        fermion_conjugate(fermion_canonical_form(raw))
    } else {
        fermion_canonical_form(raw)
    }
}

/// The sign that goes with the product that is kept: the sign of the
/// ordering, times the sign of the adjoint where the adjoint is kept.
pub open spec fn hermitian_fermion_sign(raw: ModeLists) -> Sign {
    if fermion_needs_conjugation(raw) {
        fermion_sign(raw).product(fermion_conjugate_sign(fermion_canonical_form(raw)))
    } else {
        fermion_sign(raw)
    }
}

/// A fermionic product in normal order that stands for itself and its
/// adjoint.
#[derive(Debug, PartialEq, Eq, Hash, PartialOrd, Ord)]
pub struct HermitianFermionProduct {
    product: FermionProduct,
}

impl View for HermitianFermionProduct {
    type V = ModeLists;

    closed spec fn view(&self) -> ModeLists {
        self.product@
    }
}

impl Clone for HermitianFermionProduct {
    fn clone(&self) -> (r: Self)
        ensures
            r@ == self@,
    {
        proof {
            use_type_invariant(self);
        }
        HermitianFermionProduct { product: self.product.clone() }
    }
}

impl HermitianFermionProduct {
    #[verifier::type_invariant]
    closed spec fn well_formed(self) -> bool {
        !lex_less(self@.annihilators, self@.creators)
    }

    /// The product of the given creation and annihilation operators, which
    /// must be in canonical order already and the one that is kept of it
    /// and its adjoint.
    ///
    /// Fails with `DuplicateFermionIndex` where a mode occurs twice among
    /// the creators or among the annihilators, and with `InvalidIndex` where
    /// a list is not ascending, the annihilators come before the creators,
    /// or an index is the largest number of the machine.
    pub fn new(creators: &[usize], annihilators: &[usize]) -> (r: Result<Self, StruqtureError>)
        ensures
            hermitian_fermion_canonical(
                ModeLists { creators: creators@, annihilators: annihilators@ },
            ) <==> r.is_ok(),
            r.is_ok() ==> r.unwrap()@ == (ModeLists {
                creators: creators@,
                annihilators: annihilators@,
            }),
            r == Err::<Self, StruqtureError>(StruqtureError::DuplicateFermionIndex) <==> bounded(
                creators@,
            ) && bounded(annihilators@) && !(creators@.no_duplicates()
                && annihilators@.no_duplicates()),
            r.is_err() ==> r == Err::<Self, StruqtureError>(StruqtureError::DuplicateFermionIndex)
                || r == Err::<Self, StruqtureError>(StruqtureError::InvalidIndex),
    {
        match FermionProduct::new(creators, annihilators) {
            Err(e) => Err(e),
            Ok(product) => {
                if list_less(annihilators, creators) {
                    Err(StruqtureError::InvalidIndex)
                } else {
                    Ok(HermitianFermionProduct { product })
                }
            },
        }
    }

    /// The product that is kept for the given operators, together with the
    /// coefficient that goes with it: the given coefficient times the sign
    /// of the ordering, or the complex conjugate of that times the sign of
    /// the adjoint where the adjoint of the given product is kept, and the
    /// exact zero where the product vanishes.
    ///
    /// Fails with `InvalidIndex` where an index is the largest number of the
    /// machine.
    pub fn create_valid_pair(
        creators: &[usize],
        annihilators: &[usize],
        value: CalculatorComplex,
    ) -> (r: Result<(Self, CalculatorComplex), StruqtureError>)
        ensures
            ({
                let raw = ModeLists { creators: creators@, annihilators: annihilators@ };
                if bounded(creators@) && bounded(annihilators@) {
                    r.is_ok() && r.unwrap().0@ == hermitian_fermion_form(raw) && r.unwrap().1
                        == if fermion_needs_conjugation(raw) {
                        signed(coeff_conjugate(value), hermitian_fermion_sign(raw))
                    } else {
                        signed(value, hermitian_fermion_sign(raw))
                    }
                } else {
                    r == Err::<(Self, CalculatorComplex), StruqtureError>(
                        StruqtureError::InvalidIndex,
                    )
                }
            }),
    {
        let (product, sign) = match FermionProduct::create(creators, annihilators) {
            Ok(pair) => pair,
            Err(e) => {
                return Err(e);
            },
        };
        proof {
            lemma_lex_less(product@.creators, product@.annihilators);
        }
        if list_less(product.annihilators().as_slice(), product.creators().as_slice()) {
            let (conjugate, conjugate_sign) = product.hermitian_conjugate();
            let total = sign.times(conjugate_sign);
            let coefficient = signed_coefficient(coeff_conj(&value), total);
            Ok((HermitianFermionProduct { product: conjugate }, coefficient))
        } else {
            Ok((HermitianFermionProduct { product }, signed_coefficient(value, sign)))
        }
    }

    /// The mode indices of the creation operators, in ascending order.
    pub fn creators(&self) -> (r: &Vec<usize>)
        ensures
            r@ == self@.creators,
            hermitian_fermion_canonical(self@),
    {
        proof {
            use_type_invariant(self);
        }
        self.product.creators()
    }

    /// The mode indices of the annihilation operators, in ascending order.
    pub fn annihilators(&self) -> (r: &Vec<usize>)
        ensures
            r@ == self@.annihilators,
            hermitian_fermion_canonical(self@),
    {
        proof {
            use_type_invariant(self);
        }
        self.product.annihilators()
    }

    /// The number of modes that the product reaches.
    pub fn current_number_modes(&self) -> (n: usize)
        ensures
            n == fermion_span(self@),
    {
        self.product.current_number_modes()
    }

    /// The adjoint of what the product stands for, and the sign that goes
    /// with it: the product stands for its adjoint too, so it is its own
    /// adjoint with the sign `+1`.
    pub fn hermitian_conjugate(&self) -> (r: (Self, Sign))
        ensures
            r.0@ == self@,
            r.1 == Sign::Plus,
    {
        (self.clone(), Sign::Plus)
    }

    /// Whether the product alone is its own adjoint: its creators are its
    /// annihilators.
    pub fn is_natural_hermitian(&self) -> (b: bool)
        ensures
            b == (self@.creators == self@.annihilators),
    {
        let b = self.product.is_natural_hermitian();
        proof {
            if self@.creators == self@.annihilators {
                assert(fermion_conjugate(self@) == self@);
            }
        }
        b
    }

    /// The text of the product.
    pub fn to_string(&self) -> (text: String)
        ensures
            text@ == mode_text(self@),
    {
        self.product.to_string()
    }

    /// Reads a product from its text, which must name the modes of each
    /// kind in ascending order.
    ///
    /// Fails with `ParseMismatch` where the text is neither `I` nor a row of
    /// `c` tokens followed by a row of `a` tokens, with
    /// `DuplicateFermionIndex` where a mode occurs twice in a row, and with
    /// `InvalidIndex` where a row is not ascending, the annihilators come
    /// before the creators, or an index is the largest number of the machine.
    pub fn from_str(text: &str) -> (r: Result<Self, StruqtureError>)
        ensures
            match parse_mode_text(text@) {
                None => r == Err::<Self, StruqtureError>(StruqtureError::ParseMismatch),
                Some(raw) => if hermitian_fermion_canonical(raw) {
                    r.is_ok() && r.unwrap()@ == raw
                } else if bounded(raw.creators) && bounded(raw.annihilators) && !(
                raw.creators.no_duplicates() && raw.annihilators.no_duplicates()) {
                    r == Err::<Self, StruqtureError>(StruqtureError::DuplicateFermionIndex)
                } else {
                    r == Err::<Self, StruqtureError>(StruqtureError::InvalidIndex)
                },
            },
    {
        match FermionProduct::from_str(text) {
            Err(e) => Err(e),
            Ok(product) => {
                if list_less(product.annihilators().as_slice(), product.creators().as_slice()) {
                    Err(StruqtureError::InvalidIndex)
                } else {
                    Ok(HermitianFermionProduct { product })
                }
            },
        }
    }
}

/// A coefficient times a sign: the exact zero for the sign zero.
pub fn signed_coefficient(value: CalculatorComplex, sign: Sign) -> (r: CalculatorComplex)
    ensures
        r == signed(value, sign),
{
    match sign {
        Sign::Plus => value,
        Sign::Minus => crate::coefficient::coeff_mul(
            &value,
            &crate::coefficient::coeff_from_sign(Sign::Minus),
        ),
        Sign::Zero => crate::coefficient::coeff_from_ints(0, 0),
    }
}

impl OperatorKey for HermitianFermionProduct {
    type Shape = (usize, usize);

    open spec fn span(v: ModeLists) -> nat {
        fermion_span(v)
    }

    open spec fn has_shape(v: ModeLists, shape: (usize, usize)) -> bool {
        v.creators.len() == shape.0 && v.annihilators.len() == shape.1
    }

    fn same_key(&self, other: &Self) -> (b: bool) {
        self.product.same_key(&other.product)
    }

    fn copy_key(&self) -> (r: Self) {
        self.clone()
    }

    fn key_span(&self) -> (n: usize) {
        self.current_number_modes()
    }

    fn key_has_shape(&self, shape: &(usize, usize)) -> (b: bool) {
        self.product.key_has_shape(shape)
    }
}

impl ConjugateKey for HermitianFermionProduct {
    open spec fn conjugate(v: ModeLists) -> ModeLists {
        v
    }

    open spec fn conjugate_sign(v: ModeLists) -> Sign {
        Sign::Plus
    }

    open spec fn natural_hermitian(v: ModeLists) -> bool {
        v.creators == v.annihilators
    }

    proof fn lemma_conjugate_span(v: ModeLists) {
    }

    fn key_conjugate(&self) -> (r: (Self, Sign)) {
        self.hermitian_conjugate()
    }

    fn key_is_natural_hermitian(&self) -> (b: bool) {
        self.is_natural_hermitian()
    }
}

/// The Hermitian fermionic product that a text names, where it names one.
pub open spec fn hermitian_fermion_of_text(text: Seq<char>) -> Option<ModeLists> {
    match parse_mode_text(text) {
        Some(raw) => if hermitian_fermion_canonical(raw) {
            Some(raw)
        } else {
            None
        },
        None => None,
    }
}

impl TextKey for HermitianFermionProduct {
    open spec fn arity() -> nat {
        1
    }

    open spec fn canonical(v: ModeLists) -> bool {
        hermitian_fermion_canonical(v)
    }

    open spec fn texts(v: ModeLists) -> Seq<Seq<char>> {
        seq![mode_text(v)]
    }

    open spec fn of_texts(texts: Seq<Seq<char>>) -> Option<ModeLists> {
        if texts.len() == 1 {
            hermitian_fermion_of_text(texts[0])
        } else {
            None
        }
    }

    proof fn lemma_texts(v: ModeLists) {
        crate::fermions::fermion_product::lemma_fermion_text_round_trip(v);
    }

    open spec fn family() -> Seq<char> {
        "Fermion"@
    }

    fn key_family() -> (r: String) {
        "Fermion".to_owned()
    }

    fn key_arity() -> (n: usize) {
        1
    }

    fn key_texts(&self) -> (r: Vec<String>) {
        let mut r: Vec<String> = Vec::new();
        let text = self.to_string();
        let _ = self.creators();
        r.push(text);
        assert(texts_view(r@) =~= seq![mode_text(self@)]);
        r
    }

    fn key_from_texts(texts: &Vec<String>, from: usize) -> (r: Option<Self>) {
        assert(texts_view(texts@).subrange(from as int, from + 1)[0] == texts@[from as int]@);
        match HermitianFermionProduct::from_str(texts[from].as_str()) {
            Ok(key) => Some(key),
            Err(_) => None,
        }
    }
}

impl SingleTextKey for HermitianFermionProduct {
    proof fn lemma_single() {
    }
}

/// The Hermitian fermionic product that two index lists describe, where they describe one.
pub open spec fn hermitian_fermion_of_rows(creators: Seq<usize>, annihilators: Seq<usize>) -> Option<ModeLists> {
    let raw = ModeLists { creators, annihilators };
    if hermitian_fermion_canonical(raw) {
        Some(raw)
    } else {
        None
    }
}

impl CompactKey for HermitianFermionProduct {
    open spec fn row_count() -> nat {
        2
    }

    open spec fn compact_canonical(v: ModeLists) -> bool {
        hermitian_fermion_canonical(v)
    }

    open spec fn rows(v: ModeLists) -> Seq<Seq<usize>> {
        seq![v.creators, v.annihilators]
    }

    open spec fn of_rows(rows: Seq<Seq<usize>>) -> Option<ModeLists> {
        if rows.len() == 2 {
            hermitian_fermion_of_rows(rows[0], rows[1])
        } else {
            None
        }
    }

    proof fn lemma_rows(v: ModeLists) {
        
    }

    fn key_row_count() -> (n: usize) {
        2
    }

    fn key_rows(&self) -> (r: Vec<Vec<usize>>) {
        let mut r: Vec<Vec<usize>> = Vec::new();
        r.push(copy_list(self.creators().as_slice()));
        r.push(copy_list(self.annihilators().as_slice()));
        assert(rows_view(r@) =~= seq![self@.creators, self@.annihilators]);
        r
    }

    fn key_from_rows(rows: &Vec<Vec<usize>>, from: usize) -> (r: Option<Self>) {
        let count = rows.len();
        assert(Self::row_count() == 2);
        assert(from + 2 <= count);
        assert(rows_view(rows@).len() == rows@.len());
        assert(rows_view(rows@).subrange(from as int, from + 2)[0] == rows@[from as int]@);
        assert(rows_view(rows@).subrange(from as int, from + 2)[1] == rows@[from + 1]@);
        match HermitianFermionProduct::new(rows[from].as_slice(), rows[from + 1].as_slice()) {
            Ok(key) => Some(key),
            Err(_) => None,
        }
    }
}

impl TwoRowKey for HermitianFermionProduct {
    proof fn lemma_two_rows() {
    }
}

} // verus!
