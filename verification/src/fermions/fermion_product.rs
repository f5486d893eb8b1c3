//! Products of fermionic creation and annihilation operators in normal order.

use crate::coefficient::{coeff_from_ints, coeff_from_sign, coeff_mul, coeff_of_sign, coeff_product, coeff_zero};
use crate::error::StruqtureError;
use crate::indices::{
    after_swaps, bounded, exchange, lemma_permutation_sign, lemma_strictly_ascending_form,
    lemma_strictly_ascending_unique, sort_with_sign, span, strictly_ascending,
    strictly_ascending_form, valid_swaps,
};
use crate::key::{
    rows_view, texts_view, CompactKey, ConjugateKey, MultiplyKey, OperatorKey, SingleTextKey,
    TextKey, TwoRowKey,
};
use crate::modes::{
    copy_list, drawn_from, format_modes, lemma_bounded_drawn, lemma_parse_mode_text,
    lemma_reorder_members, lemma_reverse_members, lemma_set_members, lemma_span_by_members,
    lemma_span_concat, lemma_span_drawn, list_concat, list_is_bounded, list_reversed, list_span,
    lists_equal, mode_text, parse_mode_text, parse_modes, reorder, reorder_modes, terms_match,
    ModeLists, ReorderedTerm,
};
use crate::sign::{Phase, Sign};
use qoqo_calculator::CalculatorComplex;
use std::collections::HashMap;
use vstd::prelude::*;

verus! {

/// Whether two index lists are those of a fermionic product in canonical
/// form: both strictly ascending, and no index the largest that the machine
/// has.
pub open spec fn fermion_canonical(lists: ModeLists) -> bool {
    &&& strictly_ascending(lists.creators)
    &&& strictly_ascending(lists.annihilators)
    &&& bounded(lists.creators)
    &&& bounded(lists.annihilators)
}

/// The canonical form of a raw fermionic product: the modes of each list in
/// strictly ascending order.
pub open spec fn fermion_canonical_form(raw: ModeLists) -> ModeLists {
    ModeLists {
        creators: strictly_ascending_form(raw.creators),
        annihilators: strictly_ascending_form(raw.annihilators),
    }
}

/// The factor by which a raw fermionic product differs from its canonical
/// form: the exchange signs of both lists multiplied. It is zero where a
/// list repeats a mode.
pub open spec fn fermion_sign(raw: ModeLists) -> Sign {
    exchange(raw.creators).product(exchange(raw.annihilators))
}

/// The number of modes that a product reaches: one more than its largest index.
pub open spec fn fermion_span(lists: ModeLists) -> nat {
    if span(lists.creators) > span(lists.annihilators) {
        span(lists.creators)
    } else {
        span(lists.annihilators)
    }
}

/// The adjoint of a canonical fermionic product. The adjoint of
/// `c1..cn a1..am` is `am'..a1' cn'..c1'`, where a prime turns a creator
/// into an annihilator and back: both lists change places.
pub open spec fn fermion_conjugate(lists: ModeLists) -> ModeLists {
    ModeLists { creators: lists.annihilators, annihilators: lists.creators }
}

/// The sign of the adjoint: what it costs to bring both lists, which the
/// adjoint reverses, back into ascending order.
pub open spec fn fermion_conjugate_sign(lists: ModeLists) -> Sign {
    exchange(lists.annihilators.reverse()).product(exchange(lists.creators.reverse()))
}

/// A coefficient times a sign: the exact zero for the sign zero.
pub open spec fn signed(value: CalculatorComplex, sign: Sign) -> CalculatorComplex {
    match sign {
        Sign::Plus => value,
        Sign::Minus => coeff_product(value, coeff_of_sign(Sign::Minus)),
        Sign::Zero => coeff_zero(),
    }
}

/// One term of the product of two fermionic products, from one term of the
/// normal-ordered middle: the canonical form of the lists put together, and
/// the sign of the term times what the ordering of both lists costs.
pub open spec fn fermion_term(left: ModeLists, right: ModeLists, t: ReorderedTerm) -> (
    ModeLists,
    Sign,
) {
    let raw = ModeLists { creators: left.creators + t.0, annihilators: t.1 + right.annihilators };
    (fermion_canonical_form(raw), t.2.product(fermion_sign(raw)))
}

/// The terms of a row that do not vanish.
pub open spec fn nonzero_terms(terms: Seq<(ModeLists, Sign)>) -> Seq<(ModeLists, Sign)>
    decreases terms.len(),
{
    if terms.len() == 0 {
        Seq::empty()
    } else {
        nonzero_terms(terms.drop_last()) + if terms.last().1 == Sign::Zero {
            Seq::<(ModeLists, Sign)>::empty()
        } else {
            seq![terms.last()]
        }
    }
}

/// The terms of the product of two fermionic products.
///
/// The annihilators of the left product and the creators of the right one
/// are brought into normal order. Each term of that takes the creators of
/// the left product in front and the annihilators of the right one behind;
/// a term in which a mode then occurs twice in a list vanishes.
pub open spec fn fermion_product_terms(left: ModeLists, right: ModeLists) -> Seq<(ModeLists, Sign)> {
    let middle = reorder(left.annihilators, right.creators, true);
    nonzero_terms(Seq::new(middle.len(), |i: int| fermion_term(left, right, middle[i])))
}

/// A product of fermionic creation operators followed by fermionic
/// annihilation operators, each group in strictly ascending order of its
/// mode indices.
#[derive(Debug, PartialEq, Eq, Hash, PartialOrd, Ord)]
pub struct FermionProduct {
    creators: Vec<usize>,
    annihilators: Vec<usize>,
}

impl View for FermionProduct {
    type V = ModeLists;

    closed spec fn view(&self) -> ModeLists {
        ModeLists { creators: self.creators@, annihilators: self.annihilators@ }
    }
}

impl Clone for FermionProduct {
    fn clone(&self) -> (r: Self)
        ensures
            r@ == self@,
    {
        proof {
            use_type_invariant(self);
        }
        FermionProduct {
            creators: copy_list(self.creators.as_slice()),
            annihilators: copy_list(self.annihilators.as_slice()),
        }
    }
}

/// A strictly ascending list repeats nothing.
pub proof fn lemma_strictly_ascending_distinct(s: Seq<usize>)
    requires
        strictly_ascending(s),
    ensures
        s.no_duplicates(),
{
    assert forall|i: int, j: int| 0 <= i < s.len() && 0 <= j < s.len() && i != j implies s[i]
        != s[j] by {
        if i < j {
            assert(s[i] < s[j]);
        } else {
            assert(s[j] < s[i]);
        }
    }
}

impl FermionProduct {
    #[verifier::type_invariant]
    closed spec fn well_formed(self) -> bool {
        fermion_canonical(self@)
    }

    /// The canonical product of the given creation and annihilation
    /// operators, and the sign by which it differs from them as given.
    ///
    /// The modes may come in any order. The sign is zero where a mode occurs
    /// twice among the creators or among the annihilators: such a product
    /// vanishes. Fails with `InvalidIndex` where an index is the largest
    /// number of the machine.
    pub fn create(creators: &[usize], annihilators: &[usize]) -> (r: Result<
        (Self, Sign),
        StruqtureError,
    >)
        ensures
            match r {
                Ok(pair) => bounded(creators@) && bounded(annihilators@) && pair.0@
                    == fermion_canonical_form(
                    ModeLists { creators: creators@, annihilators: annihilators@ },
                ) && pair.1 == fermion_sign(
                    ModeLists { creators: creators@, annihilators: annihilators@ },
                ) && fermion_canonical(pair.0@) && pair.0@.creators.to_set() =~= creators@.to_set()
                    && pair.0@.annihilators.to_set() =~= annihilators@.to_set(),
                Err(e) => e == StruqtureError::InvalidIndex && !(bounded(creators@) && bounded(
                    annihilators@,
                )),
            },
    {
        if !list_is_bounded(creators) || !list_is_bounded(annihilators) {
            return Err(StruqtureError::InvalidIndex);
        }
        let (sorted_creators, sign_creators) = sort_with_sign(creators);
        let (sorted_annihilators, sign_annihilators) = sort_with_sign(annihilators);
        proof {
            lemma_set_members(sorted_creators@, creators@);
            lemma_bounded_drawn(sorted_creators@, creators@);
            lemma_set_members(sorted_annihilators@, annihilators@);
            lemma_bounded_drawn(sorted_annihilators@, annihilators@);
        }
        Ok(
            (
                FermionProduct { creators: sorted_creators, annihilators: sorted_annihilators },
                sign_creators.times(sign_annihilators),
            ),
        )
    }

    /// The product of the given creation and annihilation operators, which
    /// must be in canonical order already.
    ///
    /// Fails with `DuplicateFermionIndex` where a mode occurs twice among
    /// the creators or among the annihilators, and with `InvalidIndex` where
    /// a list is not ascending or an index is the largest number of the
    /// machine.
    pub fn new(creators: &[usize], annihilators: &[usize]) -> (r: Result<Self, StruqtureError>)
        ensures
            fermion_canonical(ModeLists { creators: creators@, annihilators: annihilators@ })
                <==> r.is_ok(),
            r.is_ok() ==> r.unwrap()@ == (ModeLists {
                creators: creators@,
                annihilators: annihilators@,
            }),
            r == Err::<Self, StruqtureError>(StruqtureError::DuplicateFermionIndex) <==> bounded(
                creators@,
            ) && bounded(annihilators@) && !(creators@.no_duplicates()
                && annihilators@.no_duplicates()),
            r.is_err() ==> r == Err::<Self, StruqtureError>(StruqtureError::DuplicateFermionIndex)
                || r == Err::<Self, StruqtureError>(StruqtureError::InvalidIndex),
    {
        proof {
            if strictly_ascending(creators@) {
                lemma_strictly_ascending_distinct(creators@);
            }
            if strictly_ascending(annihilators@) {
                lemma_strictly_ascending_distinct(annihilators@);
            }
        }
        match FermionProduct::create(creators, annihilators) {
            Err(e) => Err(e),
            Ok(pair) => {
                let (product, sign) = pair;
                match sign {
                    Sign::Zero => Err(StruqtureError::DuplicateFermionIndex),
                    _ => {
                        let same = lists_equal(product.creators.as_slice(), creators) && lists_equal(
                            product.annihilators.as_slice(),
                            annihilators,
                        );
                        proof {
                            if strictly_ascending(creators@) && strictly_ascending(annihilators@) {
                                lemma_strictly_ascending_unique(product.creators@, creators@);
                                lemma_strictly_ascending_unique(product.annihilators@, annihilators@);
                            }
                        }
                        if same {
                            Ok(product)
                        } else {
                            Err(StruqtureError::InvalidIndex)
                        }
                    },
                }
            },
        }
    }

    /// The canonical product of the given operators together with the
    /// coefficient that goes with it: the given coefficient times the sign
    /// of the reordering, and the exact zero where the product vanishes.
    pub fn create_valid_pair(
        creators: &[usize],
        annihilators: &[usize],
        value: CalculatorComplex,
    ) -> (r: Result<(Self, CalculatorComplex), StruqtureError>)
        ensures
            match r {
                Ok(pair) => bounded(creators@) && bounded(annihilators@) && pair.0@
                    == fermion_canonical_form(
                    ModeLists { creators: creators@, annihilators: annihilators@ },
                ) && pair.1 == signed(
                    value,
                    fermion_sign(ModeLists { creators: creators@, annihilators: annihilators@ }),
                ),
                Err(e) => e == StruqtureError::InvalidIndex && !(bounded(creators@) && bounded(
                    annihilators@,
                )),
            },
    {
        match FermionProduct::create(creators, annihilators) {
            Ok(pair) => {
                let coefficient = match pair.1 {
                    Sign::Plus => value,
                    Sign::Minus => coeff_mul(&value, &coeff_from_sign(Sign::Minus)),
                    Sign::Zero => coeff_from_ints(0, 0),
                };
                Ok((pair.0, coefficient))
            },
            Err(e) => Err(e),
        }
    }

    /// The product with the given creators and annihilators, which are in
    /// canonical order.
    pub(crate) fn from_canonical(creators: Vec<usize>, annihilators: Vec<usize>) -> (r: Self)
        requires
            fermion_canonical(ModeLists { creators: creators@, annihilators: annihilators@ }),
        ensures
            r@ == (ModeLists { creators: creators@, annihilators: annihilators@ }),
    {
        FermionProduct { creators, annihilators }
    }

    /// The mode indices of the creation operators, in ascending order.
    pub fn creators(&self) -> (r: &Vec<usize>)
        ensures
            r@ == self@.creators,
            fermion_canonical(self@),
    {
        proof {
            use_type_invariant(self);
        }
        &self.creators
    }

    /// The mode indices of the annihilation operators, in ascending order.
    pub fn annihilators(&self) -> (r: &Vec<usize>)
        ensures
            r@ == self@.annihilators,
            fermion_canonical(self@),
    {
        proof {
            use_type_invariant(self);
        }
        &self.annihilators
    }

    /// The number of creation operators.
    pub fn number_creators(&self) -> (n: usize)
        ensures
            n == self@.creators.len(),
    {
        self.creators.len()
    }

    /// The number of annihilation operators.
    pub fn number_annihilators(&self) -> (n: usize)
        ensures
            n == self@.annihilators.len(),
    {
        self.annihilators.len()
    }

    /// The number of modes that the product reaches: one more than its
    /// largest mode index, or 0 for the product of nothing.
    pub fn current_number_modes(&self) -> (n: usize)
        ensures
            n == fermion_span(self@),
    {
        proof {
            use_type_invariant(self);
        }
        let c = list_span(self.creators.as_slice());
        let a = list_span(self.annihilators.as_slice());
        if c > a {
            c
        } else {
            a
        }
    }

    /// The adjoint of the product, and the sign that goes with it.
    ///
    /// Creators and annihilators change places and come out in reverse
    /// order; the sign is what it costs to sort them again.
    pub fn hermitian_conjugate(&self) -> (r: (Self, Sign))
        ensures
            r.0@ == fermion_conjugate(self@),
            r.1 == fermion_conjugate_sign(self@),
            r.1 != Sign::Zero,
    {
        proof {
            use_type_invariant(self);
            lemma_reverse_members(self.creators@);
            lemma_reverse_members(self.annihilators@);
            lemma_strictly_ascending_distinct(self.creators@);
            lemma_strictly_ascending_distinct(self.annihilators@);
        }
        let reversed_annihilators = list_reversed(self.annihilators.as_slice());
        let reversed_creators = list_reversed(self.creators.as_slice());
        let (creators, first) = sort_with_sign(reversed_annihilators.as_slice());
        let (annihilators, second) = sort_with_sign(reversed_creators.as_slice());
        proof {
            lemma_strictly_ascending_unique(creators@, self.annihilators@);
            lemma_strictly_ascending_unique(annihilators@, self.creators@);
        }
        (FermionProduct { creators, annihilators }, first.times(second))
    }

    /// Whether the product is its own adjoint: the adjoint is the product
    /// itself, with the sign `+1`.
    pub fn is_natural_hermitian(&self) -> (b: bool)
        ensures
            b == (fermion_conjugate(self@) == self@ && fermion_conjugate_sign(self@) == Sign::Plus),
            b == (fermion_conjugate(self@) == self@),
    {
        proof {
            use_type_invariant(self);
            lemma_reverse_members(self.creators@);
            lemma_strictly_ascending_distinct(self.creators@);
        }
        lists_equal(self.creators.as_slice(), self.annihilators.as_slice())
    }

    /// The product of two fermionic products, as a sum of products in normal
    /// order, each with its sign.
    pub fn multiply(&self, other: &FermionProduct) -> (r: Vec<(FermionProduct, Sign)>)
        ensures
            r@.len() == fermion_product_terms(self@, other@).len(),
            forall|i: int|
                0 <= i < r@.len() ==> (#[trigger] r@[i]).0@ == fermion_product_terms(self@, other@)[i].0
                    && r@[i].1 == fermion_product_terms(self@, other@)[i].1,
            forall|i: int| 0 <= i < r@.len() ==> (#[trigger] r@[i]).1 != Sign::Zero,
    {
        proof {
            use_type_invariant(self);
            use_type_invariant(other);
            lemma_reorder_members(self@.annihilators, other@.creators, true);
        }
        let middle = reorder_modes(
            self.annihilators.as_slice(),
            other.creators.as_slice(),
            0,
            true,
        );
        assert(other.creators@.skip(0) =~= other.creators@);
        let ghost terms = reorder(self@.annihilators, other@.creators, true);
        let ghost all = Seq::new(terms.len(), |i: int| fermion_term(self@, other@, terms[i]));
        let mut r: Vec<(FermionProduct, Sign)> = Vec::new();
        let mut i: usize = 0;
        assert(all.take(0) =~= Seq::empty());
        while i < middle.len()
            invariant
                i <= middle.len(),
                terms == reorder(self@.annihilators, other@.creators, true),
                all == Seq::new(terms.len(), |i: int| fermion_term(self@, other@, terms[i])),
                terms_match(middle@, terms),
                fermion_canonical(self@),
                fermion_canonical(other@),
                forall|k: int|
                    0 <= k < terms.len() ==> drawn_from((#[trigger] terms[k]).0, other@.creators)
                        && drawn_from(terms[k].1, self@.annihilators),
                r@.len() == nonzero_terms(all.take(i as int)).len(),
                forall|k: int|
                    0 <= k < r@.len() ==> (#[trigger] r@[k]).0@ == nonzero_terms(all.take(i as int))[k].0
                        && r@[k].1 == nonzero_terms(all.take(i as int))[k].1 && r@[k].1 != Sign::Zero,
            decreases middle.len() - i,
        {
            let creators = list_concat(self.creators.as_slice(), middle[i].0.as_slice());
            let annihilators = list_concat(middle[i].1.as_slice(), other.annihilators.as_slice());
            proof {
                lemma_bounded_drawn(terms[i as int].0, other@.creators);
                lemma_bounded_drawn(terms[i as int].1, self@.annihilators);
                assert(all.take(i + 1).drop_last() =~= all.take(i as int));
            }
            match FermionProduct::create(creators.as_slice(), annihilators.as_slice()) {
                Ok(pair) => {
                    let sign = middle[i].2.times(pair.1);
                    match sign {
                        Sign::Zero => {},
                        _ => {
                            r.push((pair.0, sign));
                        },
                    }
                },
                Err(_) => {
                    assert(false);
                },
            }
            i += 1;
        }
        assert(all.take(i as int) =~= all);
        r
    }

    /// The product with its modes relabelled, and the sign of the
    /// reordering: each mode that the mapping names gets the index that the
    /// mapping gives it, and the result is brought into canonical form. The
    /// sign is zero where the mapping gives two modes of a list one index.
    ///
    /// Fails with `InvalidIndex` where a mode gets the largest number of the
    /// machine as index.
    pub fn remap_modes(&self, mapping: &HashMap<usize, usize>) -> (r: Result<
        (Self, Sign),
        StruqtureError,
    >)
        ensures
            ({
                let raw = ModeLists {
                    creators: crate::modes::relabel(self@.creators, mapping@),
                    annihilators: crate::modes::relabel(self@.annihilators, mapping@),
                };
                match r {
                    Ok(pair) => bounded(raw.creators) && bounded(raw.annihilators) && pair.0@
                        == fermion_canonical_form(raw) && pair.1 == fermion_sign(raw),
                    Err(e) => e == StruqtureError::InvalidIndex && !(bounded(raw.creators)
                        && bounded(raw.annihilators)),
                }
            }),
    {
        let creators = crate::modes::relabel_list(self.creators.as_slice(), mapping);
        let annihilators = crate::modes::relabel_list(self.annihilators.as_slice(), mapping);
        FermionProduct::create(creators.as_slice(), annihilators.as_slice())
    }

    /// The text of the product: `c` and the index for each creator, then `a`
    /// and the index for each annihilator; `I` for the product of nothing.
    pub fn to_string(&self) -> (text: String)
        ensures
            text@ == mode_text(self@),
    {
        format_modes(self.creators.as_slice(), self.annihilators.as_slice())
    }

    /// Reads a product from its text, which must name the modes of each
    /// kind in ascending order.
    ///
    /// Fails with `ParseMismatch` where the text is neither `I` nor a row of
    /// `c` tokens followed by a row of `a` tokens, with
    /// `DuplicateFermionIndex` where a mode occurs twice in a row, and with
    /// `InvalidIndex` where a row is not ascending or an index is the largest
    /// number of the machine.
    pub fn from_str(text: &str) -> (r: Result<Self, StruqtureError>)
        ensures
            match parse_mode_text(text@) {
                None => r == Err::<Self, StruqtureError>(StruqtureError::ParseMismatch),
                Some(raw) => if fermion_canonical(raw) {
                    r.is_ok() && r.unwrap()@ == raw
                } else if bounded(raw.creators) && bounded(raw.annihilators) && !(
                raw.creators.no_duplicates() && raw.annihilators.no_duplicates()) {
                    r == Err::<Self, StruqtureError>(StruqtureError::DuplicateFermionIndex)
                } else {
                    r == Err::<Self, StruqtureError>(StruqtureError::InvalidIndex)
                },
            },
    {
        match parse_modes(text) {
            None => Err(StruqtureError::ParseMismatch),
            Some(lists) => FermionProduct::new(lists.0.as_slice(), lists.1.as_slice()),
        }
    }
}

impl OperatorKey for FermionProduct {
    type Shape = (usize, usize);

    open spec fn span(v: ModeLists) -> nat {
        fermion_span(v)
    }

    open spec fn has_shape(v: ModeLists, shape: (usize, usize)) -> bool {
        v.creators.len() == shape.0 && v.annihilators.len() == shape.1
    }

    fn same_key(&self, other: &Self) -> (b: bool) {
        lists_equal(self.creators.as_slice(), other.creators.as_slice()) && lists_equal(
            self.annihilators.as_slice(),
            other.annihilators.as_slice(),
        )
    }

    fn copy_key(&self) -> (r: Self) {
        self.clone()
    }

    fn key_span(&self) -> (n: usize) {
        self.current_number_modes()
    }

    fn key_has_shape(&self, shape: &(usize, usize)) -> (b: bool) {
        self.creators.len() == shape.0 && self.annihilators.len() == shape.1
    }
}

impl ConjugateKey for FermionProduct {
    open spec fn conjugate(v: ModeLists) -> ModeLists {
        fermion_conjugate(v)
    }

    open spec fn conjugate_sign(v: ModeLists) -> Sign {
        fermion_conjugate_sign(v)
    }

    open spec fn natural_hermitian(v: ModeLists) -> bool {
        fermion_conjugate(v) == v
    }

    proof fn lemma_conjugate_span(v: ModeLists) {
    }

    fn key_conjugate(&self) -> (r: (Self, Sign)) {
        self.hermitian_conjugate()
    }

    fn key_is_natural_hermitian(&self) -> (b: bool) {
        self.is_natural_hermitian()
    }
}

/// The phase of a sign that is not zero.
pub open spec fn phase_of_sign(sign: Sign) -> Phase {
    match sign {
        Sign::Minus => Phase::MinusOne,
        _ => Phase::One,
    }
}

/// Every term of a row of kept terms is a term of the row it was kept from.
pub proof fn lemma_nonzero_terms(terms: Seq<(ModeLists, Sign)>)
    ensures
        forall|k: int|
            0 <= k < nonzero_terms(terms).len() ==> exists|i: int|
                0 <= i < terms.len() && #[trigger] terms[i] == #[trigger] nonzero_terms(terms)[k],
    decreases terms.len(),
{
    let kept = nonzero_terms(terms);
    if terms.len() > 0 {
        let head = nonzero_terms(terms.drop_last());
        lemma_nonzero_terms(terms.drop_last());
        assert forall|k: int| 0 <= k < kept.len() implies exists|i: int|
            0 <= i < terms.len() && #[trigger] terms[i] == #[trigger] kept[k] by {
            if k < head.len() {
                assert(kept[k] == head[k]);
                let i = choose|i: int|
                    0 <= i < terms.drop_last().len() && #[trigger] terms.drop_last()[i] == #[trigger] head[k];
                assert(terms[i] == kept[k]);
            } else {
                assert(terms[terms.len() - 1] == kept[k]);
            }
        }
    }
}

impl MultiplyKey for FermionProduct {
    open spec fn product(a: ModeLists, b: ModeLists) -> Seq<(ModeLists, Phase)> {
        Seq::new(
            fermion_product_terms(a, b).len(),
            |i: int| (fermion_product_terms(a, b)[i].0, phase_of_sign(fermion_product_terms(a, b)[i].1)),
        )
    }

    proof fn lemma_product_span(a: ModeLists, b: ModeLists) {
        let middle = reorder(a.annihilators, b.creators, true);
        let all = Seq::new(middle.len(), |i: int| fermion_term(a, b, middle[i]));
        lemma_reorder_members(a.annihilators, b.creators, true);
        lemma_nonzero_terms(all);
        assert forall|k: int| 0 <= k < Self::product(a, b).len() implies Self::span(
            (#[trigger] Self::product(a, b)[k]).0,
        ) <= Self::span(a) || Self::span(Self::product(a, b)[k].0) <= Self::span(b) by {
            let i = choose|i: int|
                0 <= i < all.len() && #[trigger] all[i] == #[trigger] nonzero_terms(all)[k];
            let creators = a.creators + middle[i].0;
            let annihilators = middle[i].1 + b.annihilators;
            lemma_strictly_ascending_form(creators);
            lemma_strictly_ascending_form(annihilators);
            lemma_set_members(strictly_ascending_form(creators), creators);
            lemma_set_members(strictly_ascending_form(annihilators), annihilators);
            lemma_span_by_members(strictly_ascending_form(creators), creators);
            lemma_span_by_members(strictly_ascending_form(annihilators), annihilators);
            lemma_span_concat(a.creators, middle[i].0);
            lemma_span_concat(middle[i].1, b.annihilators);
            lemma_span_drawn(middle[i].0, b.creators);
            lemma_span_drawn(middle[i].1, a.annihilators);
        }
    }

    fn key_product(&self, other: &Self) -> (r: Vec<(Self, Phase)>) {
        let products = self.multiply(other);
        let mut r: Vec<(FermionProduct, Phase)> = Vec::new();
        let mut i: usize = 0;
        while i < products.len()
            invariant
                i <= products.len(),
                products@.len() == fermion_product_terms(self@, other@).len(),
                forall|k: int|
                    0 <= k < products@.len() ==> (#[trigger] products@[k]).0@ == fermion_product_terms(
                        self@,
                        other@,
                    )[k].0 && products@[k].1 == fermion_product_terms(self@, other@)[k].1,
                r@.len() == i,
                forall|k: int|
                    0 <= k < i ==> (#[trigger] r@[k]).0@ == fermion_product_terms(self@, other@)[k].0
                        && r@[k].1 == phase_of_sign(fermion_product_terms(self@, other@)[k].1),
            decreases products.len() - i,
        {
            let phase = match products[i].1 {
                Sign::Minus => Phase::MinusOne,
                _ => Phase::One,
            };
            r.push((products[i].0.clone(), phase));
            i += 1;
        }
        r
    }
}

/// Reading the text of a canonical product gives the product back.
pub proof fn lemma_fermion_text_round_trip(lists: ModeLists)
    requires
        fermion_canonical(lists),
    ensures
        parse_mode_text(mode_text(lists)) == Some(lists),
        fermion_canonical_form(lists) == lists,
        fermion_sign(lists) == Sign::Plus,
{
    lemma_parse_mode_text(lists);
    lemma_strictly_ascending_form(lists.creators);
    lemma_strictly_ascending_form(lists.annihilators);
    lemma_strictly_ascending_unique(lists.creators, strictly_ascending_form(lists.creators));
    lemma_strictly_ascending_unique(lists.annihilators, strictly_ascending_form(lists.annihilators));
    lemma_strictly_ascending_distinct(lists.creators);
    lemma_strictly_ascending_distinct(lists.annihilators);
    crate::indices::lemma_inversions_ascending(lists.creators);
    crate::indices::lemma_inversions_ascending(lists.annihilators);
}

/// Sign correctness. A raw fermionic product whose creators and
/// annihilators have been permuted, each by a row of exchanges, has the
/// canonical form of the product before, and its sign differs by the parity
/// of both permutations together.
pub proof fn lemma_fermion_permutation(
    raw: ModeLists,
    creator_swaps: Seq<(int, int)>,
    annihilator_swaps: Seq<(int, int)>,
)
    requires
        valid_swaps(raw.creators.len(), creator_swaps),
        valid_swaps(raw.annihilators.len(), annihilator_swaps),
    ensures
        ({
            let permuted = ModeLists {
                creators: after_swaps(raw.creators, creator_swaps),
                annihilators: after_swaps(raw.annihilators, annihilator_swaps),
            };
            &&& fermion_canonical_form(permuted) == fermion_canonical_form(raw)
            &&& fermion_sign(permuted) == if (creator_swaps.len() + annihilator_swaps.len()) % 2 == 0 {
                fermion_sign(raw)
            } else {
                fermion_sign(raw).negation()
            }
        }),
{
    lemma_permutation_sign(raw.creators, creator_swaps);
    lemma_permutation_sign(raw.annihilators, annihilator_swaps);
}

/// Hermiticity. The adjoint of the adjoint of a canonical product is the
/// product itself, and the signs of both steps multiply to `+1`.
pub proof fn lemma_fermion_conjugate_twice(lists: ModeLists)
    requires
        fermion_canonical(lists),
    ensures
        fermion_conjugate(fermion_conjugate(lists)) == lists,
        fermion_canonical(fermion_conjugate(lists)),
        fermion_conjugate_sign(lists).product(fermion_conjugate_sign(fermion_conjugate(lists)))
            == Sign::Plus,
{
    lemma_strictly_ascending_distinct(lists.creators);
    lemma_strictly_ascending_distinct(lists.annihilators);
    lemma_reverse_members(lists.creators);
    lemma_reverse_members(lists.annihilators);
}

/// Canonicalisation idempotence. The canonical form of a raw product is
/// canonical; its text reads back as the same product, which is its own
/// canonical form with the sign `+1`: writing and reading a product and
/// bringing it into canonical form again changes neither product nor sign.
pub proof fn lemma_fermion_idempotence(raw: ModeLists)
    requires
        bounded(raw.creators),
        bounded(raw.annihilators),
    ensures
        fermion_canonical(fermion_canonical_form(raw)),
        parse_mode_text(mode_text(fermion_canonical_form(raw))) == Some(fermion_canonical_form(raw)),
        fermion_canonical_form(fermion_canonical_form(raw)) == fermion_canonical_form(raw),
        fermion_sign(fermion_canonical_form(raw)) == Sign::Plus,
        fermion_sign(raw).product(fermion_sign(fermion_canonical_form(raw))) == fermion_sign(raw),
{
    let p = fermion_canonical_form(raw);
    lemma_strictly_ascending_form(raw.creators);
    lemma_strictly_ascending_form(raw.annihilators);
    lemma_set_members(p.creators, raw.creators);
    lemma_set_members(p.annihilators, raw.annihilators);
    lemma_bounded_drawn(p.creators, raw.creators);
    lemma_bounded_drawn(p.annihilators, raw.annihilators);
    lemma_fermion_text_round_trip(p);
}

/// The fermionic product that a text names, where it names one.
pub open spec fn fermion_of_text(text: Seq<char>) -> Option<ModeLists> {
    match parse_mode_text(text) {
        Some(raw) => if fermion_canonical(raw) {
            Some(raw)
        } else {
            None
        },
        None => None,
    }
}

impl TextKey for FermionProduct {
    open spec fn arity() -> nat {
        1
    }

    open spec fn canonical(v: ModeLists) -> bool {
        fermion_canonical(v)
    }

    open spec fn texts(v: ModeLists) -> Seq<Seq<char>> {
        seq![mode_text(v)]
    }

    open spec fn of_texts(texts: Seq<Seq<char>>) -> Option<ModeLists> {
        if texts.len() == 1 {
            fermion_of_text(texts[0])
        } else {
            None
        }
    }

    proof fn lemma_texts(v: ModeLists) {
        lemma_fermion_text_round_trip(v);
    }

    open spec fn family() -> Seq<char> {
        "Fermion"@
    }

    fn key_family() -> (r: String) {
        "Fermion".to_owned()
    }

    fn key_arity() -> (n: usize) {
        1
    }

    fn key_texts(&self) -> (r: Vec<String>) {
        let mut r: Vec<String> = Vec::new();
        let text = self.to_string();
        let _ = self.creators();
        r.push(text);
        assert(texts_view(r@) =~= seq![mode_text(self@)]);
        r
    }

    fn key_from_texts(texts: &Vec<String>, from: usize) -> (r: Option<Self>) {
        assert(texts_view(texts@).subrange(from as int, from + 1)[0] == texts@[from as int]@);
        match FermionProduct::from_str(texts[from].as_str()) {
            Ok(key) => Some(key),
            Err(_) => None,
        }
    }
}

impl SingleTextKey for FermionProduct {
    proof fn lemma_single() {
    }
}

/// The fermionic product that two index lists describe, where they describe one.
pub open spec fn fermion_of_rows(creators: Seq<usize>, annihilators: Seq<usize>) -> Option<ModeLists> {
    let raw = ModeLists { creators, annihilators };
    if fermion_canonical(raw) {
        Some(raw)
    } else {
        None
    }
}

impl CompactKey for FermionProduct {
    open spec fn row_count() -> nat {
        2
    }

    open spec fn compact_canonical(v: ModeLists) -> bool {
        fermion_canonical(v)
    }

    open spec fn rows(v: ModeLists) -> Seq<Seq<usize>> {
        seq![v.creators, v.annihilators]
    }

    open spec fn of_rows(rows: Seq<Seq<usize>>) -> Option<ModeLists> {
        if rows.len() == 2 {
            fermion_of_rows(rows[0], rows[1])
        } else {
            None
        }
    }

    proof fn lemma_rows(v: ModeLists) {
        
    }

    fn key_row_count() -> (n: usize) {
        2
    }

    fn key_rows(&self) -> (r: Vec<Vec<usize>>) {
        let mut r: Vec<Vec<usize>> = Vec::new();
        r.push(copy_list(self.creators().as_slice()));
        r.push(copy_list(self.annihilators().as_slice()));
        assert(rows_view(r@) =~= seq![self@.creators, self@.annihilators]);
        r
    }

    fn key_from_rows(rows: &Vec<Vec<usize>>, from: usize) -> (r: Option<Self>) {
        let count = rows.len();
        assert(Self::row_count() == 2);
        assert(from + 2 <= count);
        assert(rows_view(rows@).len() == rows@.len());
        assert(rows_view(rows@).subrange(from as int, from + 2)[0] == rows@[from as int]@);
        assert(rows_view(rows@).subrange(from as int, from + 2)[1] == rows@[from + 1]@);
        match FermionProduct::new(rows[from].as_slice(), rows[from + 1].as_slice()) {
            Ok(key) => Some(key),
            Err(_) => None,
        }
    }
}

impl TwoRowKey for FermionProduct {
    proof fn lemma_two_rows() {
    }
}

} // verus!
