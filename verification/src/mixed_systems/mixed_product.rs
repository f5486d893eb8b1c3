//! Products with one factor for each subsystem of a composite system.

use crate::bosons::boson_product::{
    boson_canonical, boson_of_text, lemma_boson_text_round_trip, boson_product_terms, mode_conjugate, mode_span, BosonProduct,
};
use crate::encoding::{
    product_from_bincode, product_from_json, product_of_bytes, product_of_json,
    product_to_bincode, product_to_json, text_binary_form, text_json_form,
};
use crate::error::StruqtureError;
use crate::fermions::fermion_product::{
    fermion_canonical, lemma_fermion_text_round_trip, fermion_conjugate, fermion_conjugate_sign, fermion_of_text, fermion_product_terms,
    fermion_span, phase_of_sign, FermionProduct,
};
use crate::key::{texts_view, ConjugateKey, OperatorKey, SingleTextKey, TextKey};
use crate::modes::{mode_text, mode_tokens, ModeLists};
use crate::site_product::{site_canonical, site_tokens};
use crate::text::{decimal, is_digit, lemma_decimal, render, render_token};
use crate::sign::{Phase, Sign};
use crate::site_product::{product_of_text, site_span, site_text};
use crate::spins::pauli_product::{merged, merged_exponent, PauliItems, PauliProduct, SingleSpinOperator};
use crate::text::push_char;
use vstd::prelude::*;

verus! {

/// The content of a mixed product: the products of the spin subsystems, of
/// the bosonic subsystems and of the fermionic subsystems.
pub ghost struct MixedView {
    pub spins: Seq<PauliItems>,
    pub bosons: Seq<ModeLists>,
    pub fermions: Seq<ModeLists>,
}

/// A product on a composite system: one Pauli product for each spin
/// subsystem, one bosonic product for each bosonic subsystem and one
/// fermionic product for each fermionic subsystem.
#[derive(Debug, PartialEq, Eq, Hash, PartialOrd, Ord)]
pub struct MixedProduct {
    spins: Vec<PauliProduct>,
    bosons: Vec<BosonProduct>,
    fermions: Vec<FermionProduct>,
}

/// The contents of a row of Pauli products.
pub open spec fn spin_views(spins: Seq<PauliProduct>) -> Seq<PauliItems> {
    Seq::new(spins.len(), |i: int| spins[i]@)
}

/// The contents of a row of bosonic products.
pub open spec fn boson_views(bosons: Seq<BosonProduct>) -> Seq<ModeLists> {
    Seq::new(bosons.len(), |i: int| bosons[i]@)
}

/// The contents of a row of fermionic products.
pub open spec fn fermion_views(fermions: Seq<FermionProduct>) -> Seq<ModeLists> {
    Seq::new(fermions.len(), |i: int| fermions[i]@)
}

impl View for MixedProduct {
    type V = MixedView;

    closed spec fn view(&self) -> MixedView {
        MixedView {
            spins: spin_views(self.spins@),
            bosons: boson_views(self.bosons@),
            fermions: fermion_views(self.fermions@),
        }
    }
}

/// A copy of a row of Pauli products.
pub fn copy_spins(spins: &Vec<PauliProduct>) -> (r: Vec<PauliProduct>)
    ensures
        spin_views(r@) == spin_views(spins@),
{
    let mut r: Vec<PauliProduct> = Vec::new();
    let mut i: usize = 0;
    while i < spins.len()
        invariant
            i <= spins.len(),
            r@.len() == i,
            forall|k: int| 0 <= k < i ==> (#[trigger] r@[k])@ == spins@[k]@,
        decreases spins.len() - i,
    {
        r.push(spins[i].clone());
        i += 1;
    }
    assert(spin_views(r@) =~= spin_views(spins@));
    r
}

/// A copy of a row of bosonic products.
pub fn copy_bosons(bosons: &Vec<BosonProduct>) -> (r: Vec<BosonProduct>)
    ensures
        boson_views(r@) == boson_views(bosons@),
{
    let mut r: Vec<BosonProduct> = Vec::new();
    let mut i: usize = 0;
    while i < bosons.len()
        invariant
            i <= bosons.len(),
            r@.len() == i,
            forall|k: int| 0 <= k < i ==> (#[trigger] r@[k])@ == bosons@[k]@,
        decreases bosons.len() - i,
    {
        r.push(bosons[i].clone());
        i += 1;
    }
    assert(boson_views(r@) =~= boson_views(bosons@));
    r
}

/// A copy of a row of fermionic products.
pub fn copy_fermions(fermions: &Vec<FermionProduct>) -> (r: Vec<FermionProduct>)
    ensures
        fermion_views(r@) == fermion_views(fermions@),
{
    let mut r: Vec<FermionProduct> = Vec::new();
    let mut i: usize = 0;
    while i < fermions.len()
        invariant
            i <= fermions.len(),
            r@.len() == i,
            forall|k: int| 0 <= k < i ==> (#[trigger] r@[k])@ == fermions@[k]@,
        decreases fermions.len() - i,
    {
        r.push(fermions[i].clone());
        i += 1;
    }
    assert(fermion_views(r@) =~= fermion_views(fermions@));
    r
}

impl Clone for MixedProduct {
    fn clone(&self) -> (r: Self)
        ensures
            r@ == self@,
    {
        MixedProduct {
            spins: copy_spins(&self.spins),
            bosons: copy_bosons(&self.bosons),
            fermions: copy_fermions(&self.fermions),
        }
    }
}

/// The adjoint of a mixed product: the adjoint of each of its products.
pub open spec fn mixed_conjugate(v: MixedView) -> MixedView {
    MixedView {
        spins: v.spins,
        bosons: Seq::new(v.bosons.len(), |i: int| mode_conjugate(v.bosons[i])),
        fermions: Seq::new(v.fermions.len(), |i: int| fermion_conjugate(v.fermions[i])),
    }
}

/// The sign of the adjoint of a mixed product: the signs of the adjoints of
/// its fermionic products multiplied.
pub open spec fn mixed_conjugate_sign(fermions: Seq<ModeLists>) -> Sign
    decreases fermions.len(),
{
    if fermions.len() == 0 {
        Sign::Plus
    } else {
        mixed_conjugate_sign(fermions.drop_last()).product(fermion_conjugate_sign(fermions.last()))
    }
}

/// The text of the products of the spin subsystems: for each `S`, the text
/// of the product and a colon.
pub open spec fn spins_text(spins: Seq<PauliItems>) -> Seq<char>
    decreases spins.len(),
{
    if spins.len() == 0 {
        Seq::empty()
    } else {
        spins_text(spins.drop_last()) + seq!['S'] + site_text(spins.last()) + seq![':']
    }
}

/// The text of the products of subsystems of modes: for each the letter of
/// the kind, the text of the product and a colon.
pub open spec fn modes_text(modes: Seq<ModeLists>, kind: char) -> Seq<char>
    decreases modes.len(),
{
    if modes.len() == 0 {
        Seq::empty()
    } else {
        modes_text(modes.drop_last(), kind) + seq![kind] + mode_text(modes.last()) + seq![':']
    }
}

/// The text of a mixed product: the spin subsystems, then the bosonic and
/// then the fermionic subsystems.
pub open spec fn mixed_text(v: MixedView) -> Seq<char> {
    spins_text(v.spins) + modes_text(v.bosons, 'B') + modes_text(v.fermions, 'F')
}

/// One alternative for the product of the factors of one subsystem: the
/// mixed product so far with that product added, and the phase so far times
/// the phase of that product.
pub type MixedTerm = (MixedView, Phase);

/// The terms so far, each with the product of the next spin subsystem.
pub open spec fn with_spin_factor(terms: Seq<MixedTerm>, left: PauliItems, right: PauliItems) -> Seq<
    MixedTerm,
> {
    Seq::new(
        terms.len(),
        |i: int|
            (
                MixedView {
                    spins: terms[i].0.spins.push(merged(left, right)),
                    bosons: terms[i].0.bosons,
                    fermions: terms[i].0.fermions,
                },
                Phase::of_exponent(terms[i].1.exponent() + merged_exponent(left, right)),
            ),
    )
}

/// One term with each term of the product of the next bosonic subsystem.
pub open spec fn boson_alternatives(term: MixedTerm, products: Seq<ModeLists>) -> Seq<MixedTerm> {
    Seq::new(
        products.len(),
        |j: int|
            (
                MixedView {
                    spins: term.0.spins,
                    bosons: term.0.bosons.push(products[j]),
                    fermions: term.0.fermions,
                },
                term.1,
            ),
    )
}

/// The terms so far, each with each term of the product of the next
/// bosonic subsystem.
pub open spec fn with_boson_factor(terms: Seq<MixedTerm>, products: Seq<ModeLists>) -> Seq<MixedTerm>
    decreases terms.len(),
{
    if terms.len() == 0 {
        Seq::empty()
    } else {
        with_boson_factor(terms.drop_last(), products) + boson_alternatives(terms.last(), products)
    }
}

/// One term with each term of the product of the next fermionic subsystem.
pub open spec fn fermion_alternatives(term: MixedTerm, products: Seq<(ModeLists, Sign)>) -> Seq<
    MixedTerm,
> {
    Seq::new(
        products.len(),
        |j: int|
            (
                MixedView {
                    spins: term.0.spins,
                    bosons: term.0.bosons,
                    fermions: term.0.fermions.push(products[j].0),
                },
                Phase::of_exponent(term.1.exponent() + phase_of_sign(products[j].1).exponent()),
            ),
    )
}

/// The terms so far, each with each term of the product of the next
/// fermionic subsystem.
pub open spec fn with_fermion_factor(terms: Seq<MixedTerm>, products: Seq<(ModeLists, Sign)>) -> Seq<
    MixedTerm,
>
    decreases terms.len(),
{
    if terms.len() == 0 {
        Seq::empty()
    } else {
        with_fermion_factor(terms.drop_last(), products) + fermion_alternatives(
            terms.last(),
            products,
        )
    }
}

/// The terms of the product of the first `count` spin subsystems.
pub open spec fn spin_stage(left: MixedView, right: MixedView, count: nat) -> Seq<MixedTerm>
    decreases count,
{
    if count == 0 {
        seq![
            (
                MixedView { spins: Seq::empty(), bosons: Seq::empty(), fermions: Seq::empty() },
                Phase::One,
            ),
        ]
    } else {
        with_spin_factor(
            spin_stage(left, right, (count - 1) as nat),
            left.spins[count - 1],
            right.spins[count - 1],
        )
    }
}

/// The terms of the product of all spin subsystems and the first `count`
/// bosonic subsystems.
pub open spec fn boson_stage(left: MixedView, right: MixedView, count: nat) -> Seq<MixedTerm>
    decreases count,
{
    if count == 0 {
        spin_stage(left, right, left.spins.len())
    } else {
        with_boson_factor(
            boson_stage(left, right, (count - 1) as nat),
            boson_product_terms(left.bosons[count - 1], right.bosons[count - 1]),
        )
    }
}

/// The terms of the product of all spin subsystems, all bosonic subsystems
/// and the first `count` fermionic subsystems.
pub open spec fn fermion_stage(left: MixedView, right: MixedView, count: nat) -> Seq<MixedTerm>
    decreases count,
{
    if count == 0 {
        boson_stage(left, right, left.bosons.len())
    } else {
        with_fermion_factor(
            fermion_stage(left, right, (count - 1) as nat),
            fermion_product_terms(left.fermions[count - 1], right.fermions[count - 1]),
        )
    }
}

/// Whether two mixed products are for the same numbers of subsystems.
pub open spec fn same_subsystems(left: MixedView, right: MixedView) -> bool {
    left.spins.len() == right.spins.len() && left.bosons.len() == right.bosons.len()
        && left.fermions.len() == right.fermions.len()
}

/// The terms of the product of two mixed products for the same numbers of
/// subsystems: the products of the factors of each subsystem, every term
/// of one with every term of the others.
pub open spec fn mixed_product_terms(left: MixedView, right: MixedView) -> Seq<MixedTerm> {
    fermion_stage(left, right, left.fermions.len())
}

/// Learns that each product of three rows is in canonical form.
fn canonical_parts(
    spins: &Vec<PauliProduct>,
    bosons: &Vec<BosonProduct>,
    fermions: &Vec<FermionProduct>,
)
    ensures
        mixed_canonical(
            MixedView {
                spins: spin_views(spins@),
                bosons: boson_views(bosons@),
                fermions: fermion_views(fermions@),
            },
        ),
{
    let mut i: usize = 0;
    while i < spins.len()
        invariant
            i <= spins.len(),
            forall|k: int| 0 <= k < i ==> site_canonical(#[trigger] spins@[k]@),
        decreases spins.len() - i,
    {
        let _ = spins[i].len();
        i += 1;
    }
    let mut j: usize = 0;
    while j < bosons.len()
        invariant
            j <= bosons.len(),
            forall|k: int| 0 <= k < j ==> boson_canonical(#[trigger] bosons@[k]@),
        decreases bosons.len() - j,
    {
        let _ = bosons[j].creators();
        j += 1;
    }
    let mut f: usize = 0;
    while f < fermions.len()
        invariant
            f <= fermions.len(),
            forall|k: int| 0 <= k < f ==> fermion_canonical(#[trigger] fermions@[k]@),
        decreases fermions.len() - f,
    {
        let _ = fermions[f].creators();
        f += 1;
    }
}

impl MixedProduct {
    /// The mixed product with the given products for the subsystems.
    pub fn new(spins: Vec<PauliProduct>, bosons: Vec<BosonProduct>, fermions: Vec<FermionProduct>) -> (r:
        Result<Self, StruqtureError>)
        ensures
            r.is_ok(),
            r.unwrap()@ == (MixedView {
                spins: spin_views(spins@),
                bosons: boson_views(bosons@),
                fermions: fermion_views(fermions@),
            }),
            mixed_canonical(r.unwrap()@),
    {
        canonical_parts(&spins, &bosons, &fermions);
        Ok(MixedProduct { spins, bosons, fermions })
    }

    /// The mixed product with the given products for the subsystems,
    /// together with the coefficient that goes with it: the products are in
    /// canonical form each, so the coefficient comes back as it is.
    pub fn create_valid_pair(
        spins: Vec<PauliProduct>,
        bosons: Vec<BosonProduct>,
        fermions: Vec<FermionProduct>,
        value: qoqo_calculator::CalculatorComplex,
    ) -> (r: Result<(Self, qoqo_calculator::CalculatorComplex), StruqtureError>)
        ensures
            r.is_ok(),
            r.unwrap().0@ == (MixedView {
                spins: spin_views(spins@),
                bosons: boson_views(bosons@),
                fermions: fermion_views(fermions@),
            }),
            r.unwrap().1 == value,
    {
        Ok((MixedProduct { spins, bosons, fermions }, value))
    }

    /// The products of the spin subsystems.
    pub fn spins(&self) -> (r: &Vec<PauliProduct>)
        ensures
            spin_views(r@) == self@.spins,
    {
        &self.spins
    }

    /// The products of the bosonic subsystems.
    pub fn bosons(&self) -> (r: &Vec<BosonProduct>)
        ensures
            boson_views(r@) == self@.bosons,
    {
        &self.bosons
    }

    /// The products of the fermionic subsystems.
    pub fn fermions(&self) -> (r: &Vec<FermionProduct>)
        ensures
            fermion_views(r@) == self@.fermions,
    {
        &self.fermions
    }

    /// The number of spins that the product of each spin subsystem reaches.
    pub fn current_number_spins(&self) -> (r: Vec<usize>)
        ensures
            r@.len() == self@.spins.len(),
            forall|i: int| 0 <= i < r@.len() ==> r@[i] == site_span(#[trigger] self@.spins[i]),
    {
        let mut r: Vec<usize> = Vec::new();
        let mut i: usize = 0;
        while i < self.spins.len()
            invariant
                i <= self.spins.len(),
                r@.len() == i,
                forall|k: int| 0 <= k < i ==> r@[k] == site_span(#[trigger] self@.spins[k]),
            decreases self.spins.len() - i,
        {
            r.push(self.spins[i].current_number_spins());
            i += 1;
        }
        r
    }

    /// The number of modes that the product of each bosonic subsystem reaches.
    pub fn current_number_bosonic_modes(&self) -> (r: Vec<usize>)
        ensures
            r@.len() == self@.bosons.len(),
            forall|i: int| 0 <= i < r@.len() ==> r@[i] == mode_span(#[trigger] self@.bosons[i]),
    {
        let mut r: Vec<usize> = Vec::new();
        let mut i: usize = 0;
        while i < self.bosons.len()
            invariant
                i <= self.bosons.len(),
                r@.len() == i,
                forall|k: int| 0 <= k < i ==> r@[k] == mode_span(#[trigger] self@.bosons[k]),
            decreases self.bosons.len() - i,
        {
            r.push(self.bosons[i].current_number_modes());
            i += 1;
        }
        r
    }

    /// The number of modes that the product of each fermionic subsystem
    /// reaches.
    pub fn current_number_fermionic_modes(&self) -> (r: Vec<usize>)
        ensures
            r@.len() == self@.fermions.len(),
            forall|i: int| 0 <= i < r@.len() ==> r@[i] == fermion_span(#[trigger] self@.fermions[i]),
    {
        let mut r: Vec<usize> = Vec::new();
        let mut i: usize = 0;
        while i < self.fermions.len()
            invariant
                i <= self.fermions.len(),
                r@.len() == i,
                forall|k: int| 0 <= k < i ==> r@[k] == fermion_span(#[trigger] self@.fermions[k]),
            decreases self.fermions.len() - i,
        {
            r.push(self.fermions[i].current_number_modes());
            i += 1;
        }
        r
    }

    /// The adjoint of the product, and the sign that goes with it: the
    /// adjoint of the product of each subsystem, and the signs of the
    /// adjoints of the fermionic products multiplied.
    pub fn hermitian_conjugate(&self) -> (r: (Self, Sign))
        ensures
            r.0@ == mixed_conjugate(self@),
            r.1 == mixed_conjugate_sign(self@.fermions),
    {
        let mut bosons: Vec<BosonProduct> = Vec::new();
        let mut i: usize = 0;
        while i < self.bosons.len()
            invariant
                i <= self.bosons.len(),
                bosons@.len() == i,
                forall|k: int| 0 <= k < i ==> (#[trigger] bosons@[k])@ == mode_conjugate(self.bosons@[k]@),
            decreases self.bosons.len() - i,
        {
            let (conjugate, _) = self.bosons[i].hermitian_conjugate();
            bosons.push(conjugate);
            i += 1;
        }
        let mut fermions: Vec<FermionProduct> = Vec::new();
        let mut sign = Sign::Plus;
        let mut j: usize = 0;
        assert(self@.fermions.take(0) =~= Seq::<ModeLists>::empty());
        while j < self.fermions.len()
            invariant
                j <= self.fermions.len(),
                fermions@.len() == j,
                forall|k: int|
                    0 <= k < j ==> (#[trigger] fermions@[k])@ == fermion_conjugate(self.fermions@[k]@),
                sign == mixed_conjugate_sign(self@.fermions.take(j as int)),
            decreases self.fermions.len() - j,
        {
            proof {
                assert(self@.fermions.take(j + 1).drop_last() =~= self@.fermions.take(j as int));
                assert(self@.fermions.take(j + 1).last() == self.fermions@[j as int]@);
            }
            let (conjugate, factor) = self.fermions[j].hermitian_conjugate();
            fermions.push(conjugate);
            sign = sign.times(factor);
            j += 1;
        }
        assert(self@.fermions.take(j as int) =~= self@.fermions);
        let r = MixedProduct { spins: copy_spins(&self.spins), bosons, fermions };
        proof {
            assert(r@.bosons =~= mixed_conjugate(self@).bosons);
            assert(r@.fermions =~= mixed_conjugate(self@).fermions);
        }
        (r, sign)
    }

    /// Whether the product is its own adjoint: each bosonic and each
    /// fermionic product has its creators as annihilators.
    pub fn is_natural_hermitian(&self) -> (b: bool)
        ensures
            b == ((forall|i: int|
                0 <= i < self@.bosons.len() ==> mode_conjugate(#[trigger] self@.bosons[i])
                    == self@.bosons[i]) && (forall|i: int|
                0 <= i < self@.fermions.len() ==> fermion_conjugate(#[trigger] self@.fermions[i])
                    == self@.fermions[i])),
    {
        let mut i: usize = 0;
        while i < self.bosons.len()
            invariant
                i <= self.bosons.len(),
                forall|k: int|
                    0 <= k < i ==> mode_conjugate(#[trigger] self@.bosons[k]) == self@.bosons[k],
            decreases self.bosons.len() - i,
        {
            if !self.bosons[i].is_natural_hermitian() {
                assert(mode_conjugate(self@.bosons[i as int]) != self@.bosons[i as int]);
                return false;
            }
            i += 1;
        }
        let mut j: usize = 0;
        while j < self.fermions.len()
            invariant
                j <= self.fermions.len(),
                forall|k: int|
                    0 <= k < self@.bosons.len() ==> mode_conjugate(#[trigger] self@.bosons[k])
                        == self@.bosons[k],
                forall|k: int|
                    0 <= k < j ==> fermion_conjugate(#[trigger] self@.fermions[k])
                        == self@.fermions[k],
            decreases self.fermions.len() - j,
        {
            if !self.fermions[j].is_natural_hermitian() {
                assert(fermion_conjugate(self@.fermions[j as int]) != self@.fermions[j as int]);
                return false;
            }
            j += 1;
        }
        true
    }

    /// The text of the product: for each subsystem the letter of its kind,
    /// `S`, `B` or `F`, the text of its product and a colon.
    pub fn to_string(&self) -> (text: String)
        ensures
            text@ == mixed_text(self@),
    {
        let mut text = String::new();
        let mut i: usize = 0;
        assert(self@.spins.take(0) =~= Seq::<PauliItems>::empty());
        assert(text@ =~= spins_text(self@.spins.take(0)));
        while i < self.spins.len()
            invariant
                i <= self.spins.len(),
                text@ == spins_text(self@.spins.take(i as int)),
            decreases self.spins.len() - i,
        {
            proof {
                assert(self@.spins.take(i + 1).drop_last() =~= self@.spins.take(i as int));
                assert(self@.spins.take(i + 1).last() == self.spins@[i as int]@);
            }
            let ghost before = text@;
            push_char(&mut text, 'S');
            let part = self.spins[i].to_string();
            text.append(part.as_str());
            push_char(&mut text, ':');
            assert(text@ =~= before + seq!['S'] + site_text(self.spins@[i as int]@) + seq![':']);
            i += 1;
        }
        assert(self@.spins.take(i as int) =~= self@.spins);
        let ghost head = text@;
        let mut j: usize = 0;
        assert(self@.bosons.take(0) =~= Seq::<ModeLists>::empty());
        assert(text@ =~= head + modes_text(self@.bosons.take(0), 'B'));
        while j < self.bosons.len()
            invariant
                j <= self.bosons.len(),
                head == spins_text(self@.spins),
                text@ == head + modes_text(self@.bosons.take(j as int), 'B'),
            decreases self.bosons.len() - j,
        {
            proof {
                assert(self@.bosons.take(j + 1).drop_last() =~= self@.bosons.take(j as int));
                assert(self@.bosons.take(j + 1).last() == self.bosons@[j as int]@);
            }
            let ghost before = text@;
            push_char(&mut text, 'B');
            let part = self.bosons[j].to_string();
            text.append(part.as_str());
            push_char(&mut text, ':');
            assert(text@ =~= before + seq!['B'] + mode_text(self.bosons@[j as int]@) + seq![':']);
            assert(text@ =~= head + modes_text(self@.bosons.take(j + 1), 'B'));
            j += 1;
        }
        assert(self@.bosons.take(j as int) =~= self@.bosons);
        let ghost middle = text@;
        let mut k: usize = 0;
        assert(self@.fermions.take(0) =~= Seq::<ModeLists>::empty());
        assert(text@ =~= middle + modes_text(self@.fermions.take(0), 'F'));
        while k < self.fermions.len()
            invariant
                k <= self.fermions.len(),
                middle == spins_text(self@.spins) + modes_text(self@.bosons, 'B'),
                text@ == middle + modes_text(self@.fermions.take(k as int), 'F'),
            decreases self.fermions.len() - k,
        {
            proof {
                assert(self@.fermions.take(k + 1).drop_last() =~= self@.fermions.take(k as int));
                assert(self@.fermions.take(k + 1).last() == self.fermions@[k as int]@);
            }
            let ghost before = text@;
            push_char(&mut text, 'F');
            let part = self.fermions[k].to_string();
            text.append(part.as_str());
            push_char(&mut text, ':');
            assert(text@ =~= before + seq!['F'] + mode_text(self.fermions@[k as int]@) + seq![':']);
            assert(text@ =~= middle + modes_text(self@.fermions.take(k + 1), 'F'));
            k += 1;
        }
        assert(self@.fermions.take(k as int) =~= self@.fermions);
        text
    }
}

/// A mixed product with the product of one more subsystem, which a section
/// of a text names by the letter of its kind and the text of the product.
pub open spec fn with_section(v: MixedView, section: Seq<char>) -> Option<MixedView> {
    if section.len() == 0 {
        None
    } else if section[0] == 'S' {
        match product_of_text::<SingleSpinOperator>(section.skip(1)) {
            Some(items) => Some(
                MixedView { spins: v.spins.push(items), bosons: v.bosons, fermions: v.fermions },
            ),
            None => None,
        }
    } else if section[0] == 'B' {
        match boson_of_text(section.skip(1)) {
            Some(lists) => Some(
                MixedView { spins: v.spins, bosons: v.bosons.push(lists), fermions: v.fermions },
            ),
            None => None,
        }
    } else if section[0] == 'F' {
        match fermion_of_text(section.skip(1)) {
            Some(lists) => Some(
                MixedView { spins: v.spins, bosons: v.bosons, fermions: v.fermions.push(lists) },
            ),
            None => None,
        }
    } else {
        None
    }
}

/// A mixed product with the section that a text ends with, where there is
/// one.
pub open spec fn closed_section(v: MixedView, section: Seq<char>) -> Option<MixedView> {
    if section.len() == 0 {
        Some(v)
    } else {
        with_section(v, section)
    }
}

/// What a beginning of a text gives: the mixed product of the sections
/// that are complete, and the section that has begun. Colons part the
/// sections; a section without characters is passed over.
pub open spec fn sections_read(text: Seq<char>) -> Option<(MixedView, Seq<char>)>
    decreases text.len(),
{
    if text.len() == 0 {
        Some(
            (
                MixedView { spins: Seq::empty(), bosons: Seq::empty(), fermions: Seq::empty() },
                Seq::empty(),
            ),
        )
    } else {
        match sections_read(text.drop_last()) {
            None => None,
            Some(state) => if text.last() == ':' {
                match closed_section(state.0, state.1) {
                    Some(v) => Some((v, Seq::empty())),
                    None => None,
                }
            } else {
                Some((state.0, state.1.push(text.last())))
            },
        }
    }
}

/// The mixed product that a text names, where it names one.
pub open spec fn parse_mixed_text(text: Seq<char>) -> Option<MixedView> {
    match sections_read(text) {
        None => None,
        Some(state) => closed_section(state.0, state.1),
    }
}

/// Where a beginning of a text names no sections, the text names none.
pub proof fn lemma_sections_read_fails(text: Seq<char>, k: int)
    requires
        0 <= k <= text.len(),
        sections_read(text.take(k)).is_none(),
    ensures
        sections_read(text).is_none(),
    decreases text.len() - k,
{
    if k < text.len() {
        assert(text.take(k + 1).drop_last() =~= text.take(k));
        lemma_sections_read_fails(text, k + 1);
    } else {
        assert(text.take(k) =~= text);
    }
}

/// Adding the exponents of two phases and taking the phase of the sum is
/// the same as taking the phase of one exponent first.
pub proof fn lemma_phase_exponents(a: int, b: int)
    ensures
        Phase::of_exponent(a + Phase::of_exponent(b).exponent()) == Phase::of_exponent(a + b),
{
}

/// The terms of a product of mixed products that are held in memory.
pub type HeldTerm = (Vec<PauliProduct>, Vec<BosonProduct>, Vec<FermionProduct>, Phase);

/// The term that a term in memory stands for.
pub open spec fn held_view(t: HeldTerm) -> MixedTerm {
    (
        MixedView {
            spins: spin_views(t.0@),
            bosons: boson_views(t.1@),
            fermions: fermion_views(t.2@),
        },
        t.3,
    )
}

/// Whether a row of terms in memory is the given row of terms.
pub open spec fn held_terms_match(held: Seq<HeldTerm>, terms: Seq<MixedTerm>) -> bool {
    &&& held.len() == terms.len()
    &&& forall|i: int| 0 <= i < held.len() ==> held_view(#[trigger] held[i]) == terms[i]
}

impl MixedProduct {
    /// Closes a section of a text: reads the product that it names and
    /// adds it to the products so far.
    fn close_section(
        spins: &mut Vec<PauliProduct>,
        bosons: &mut Vec<BosonProduct>,
        fermions: &mut Vec<FermionProduct>,
        kind: char,
        rest: &String,
    ) -> (r: bool)
        ensures
            ({
                let before = MixedView {
                    spins: spin_views(old(spins)@),
                    bosons: boson_views(old(bosons)@),
                    fermions: fermion_views(old(fermions)@),
                };
                let after = MixedView {
                    spins: spin_views(final(spins)@),
                    bosons: boson_views(final(bosons)@),
                    fermions: fermion_views(final(fermions)@),
                };
                match with_section(before, seq![kind] + rest@) {
                    Some(v) => r && after == v,
                    None => !r,
                }
            }),
    {
        let ghost section = seq![kind] + rest@;
        assert(section.skip(1) =~= rest@);
        assert(section[0] == kind);
        if kind == 'S' {
            match PauliProduct::from_str(rest.as_str()) {
                Ok(product) => {
                    spins.push(product);
                    assert(spin_views(spins@) =~= spin_views(old(spins)@).push(product@));
                    true
                },
                Err(_) => false,
            }
        } else if kind == 'B' {
            match BosonProduct::from_str(rest.as_str()) {
                Ok(product) => {
                    bosons.push(product);
                    assert(boson_views(bosons@) =~= boson_views(old(bosons)@).push(product@));
                    true
                },
                Err(_) => false,
            }
        } else if kind == 'F' {
            match FermionProduct::from_str(rest.as_str()) {
                Ok(product) => {
                    fermions.push(product);
                    assert(fermion_views(fermions@) =~= fermion_views(old(fermions)@).push(
                        product@,
                    ));
                    true
                },
                Err(_) => false,
            }
        } else {
            false
        }
    }

    /// Reads a mixed product from its text: sections parted by colons, each
    /// the letter of the kind of a subsystem, `S`, `B` or `F`, followed by
    /// the text of its product. Sections without characters are passed over.
    ///
    /// Fails with `ParseMismatch` where a section starts with another letter
    /// or names no product of its kind.
    pub fn from_str(text: &str) -> (r: Result<Self, StruqtureError>)
        ensures
            match parse_mixed_text(text@) {
                Some(v) => r.is_ok() && r.unwrap()@ == v,
                None => r == Err::<Self, StruqtureError>(StruqtureError::ParseMismatch),
            },
    {
        let n = text.unicode_len();
        let mut spins: Vec<PauliProduct> = Vec::new();
        let mut bosons: Vec<BosonProduct> = Vec::new();
        let mut fermions: Vec<FermionProduct> = Vec::new();
        let mut kind: Option<char> = None;
        let mut rest = String::new();
        let mut i: usize = 0;
        assert(text@.take(0) =~= Seq::<char>::empty());
        assert(spin_views(spins@) =~= Seq::<PauliItems>::empty());
        assert(boson_views(bosons@) =~= Seq::<ModeLists>::empty());
        assert(fermion_views(fermions@) =~= Seq::<ModeLists>::empty());
        while i < n
            invariant
                i <= n,
                n == text@.len(),
                sections_read(text@.take(i as int)) == Some(
                    (
                        MixedView {
                            spins: spin_views(spins@),
                            bosons: boson_views(bosons@),
                            fermions: fermion_views(fermions@),
                        },
                        match kind {
                            Some(c) => seq![c] + rest@,
                            None => Seq::<char>::empty(),
                        },
                    ),
                ),
                kind.is_none() ==> rest@.len() == 0,
            decreases n - i,
        {
            proof {
                assert(text@.take(i + 1).drop_last() =~= text@.take(i as int));
                assert(text@.take(i + 1).last() == text@[i as int]);
            }
            let c = text.get_char(i);
            if c == ':' {
                match kind {
                    None => {},
                    Some(k) => {
                        if !MixedProduct::close_section(&mut spins, &mut bosons, &mut fermions, k, &rest) {
                            proof {
                                lemma_sections_read_fails(text@, i + 1);
                            }
                            return Err(StruqtureError::ParseMismatch);
                        }
                        kind = None;
                        rest = String::new();
                    },
                }
            } else {
                match kind {
                    None => {
                        kind = Some(c);
                        assert(Seq::<char>::empty().push(c) =~= seq![c] + rest@);
                    },
                    Some(k) => {
                        let ghost before = rest@;
                        push_char(&mut rest, c);
                        assert((seq![k] + before).push(c) =~= seq![k] + rest@);
                    },
                }
            }
            i += 1;
        }
        assert(text@.take(i as int) =~= text@);
        match kind {
            None => {},
            Some(k) => {
                if !MixedProduct::close_section(&mut spins, &mut bosons, &mut fermions, k, &rest) {
                    return Err(StruqtureError::ParseMismatch);
                }
            },
        }
        Ok(MixedProduct { spins, bosons, fermions })
    }

    /// The product of two mixed products for the same numbers of
    /// subsystems, as a sum of mixed products, each with its phase.
    ///
    /// Fails with `MismatchedSubsystems` where the numbers of subsystems
    /// differ.
    pub fn multiply(&self, other: &MixedProduct) -> (r: Result<
        Vec<(MixedProduct, Phase)>,
        StruqtureError,
    >)
        ensures
            !same_subsystems(self@, other@) ==> r == Err::<
                Vec<(MixedProduct, Phase)>,
                StruqtureError,
            >(StruqtureError::MismatchedSubsystems),
            same_subsystems(self@, other@) ==> r.is_ok() && r.unwrap()@.len()
                == mixed_product_terms(self@, other@).len() && forall|i: int|
                0 <= i < r.unwrap()@.len() ==> (#[trigger] r.unwrap()@[i]).0@ == mixed_product_terms(
                    self@,
                    other@,
                )[i].0 && r.unwrap()@[i].1 == mixed_product_terms(self@, other@)[i].1,
    {
        if self.spins.len() != other.spins.len() || self.bosons.len() != other.bosons.len()
            || self.fermions.len() != other.fermions.len() {
            return Err(StruqtureError::MismatchedSubsystems);
        }
        let mut terms: Vec<HeldTerm> = Vec::new();
        terms.push((Vec::new(), Vec::new(), Vec::new(), Phase::One));
        proof {
            let t = terms@[0];
            assert(spin_views(t.0@) =~= Seq::<PauliItems>::empty());
            assert(boson_views(t.1@) =~= Seq::<ModeLists>::empty());
            assert(fermion_views(t.2@) =~= Seq::<ModeLists>::empty());
        }
        // the spin subsystems
        let mut i: usize = 0;
        while i < self.spins.len()
            invariant
                i <= self.spins.len(),
                self.spins.len() == other.spins.len(),
                held_terms_match(terms@, spin_stage(self@, other@, i as nat)),
            decreases self.spins.len() - i,
        {
            let ghost before = spin_stage(self@, other@, i as nat);
            let (product, phase) = PauliProduct::multiply(&self.spins[i], &other.spins[i]);
            let mut next: Vec<HeldTerm> = Vec::new();
            let mut t: usize = 0;
            while t < terms.len()
                invariant
                    t <= terms.len(),
                    i < self.spins.len(),
                    self.spins.len() == other.spins.len(),
                    held_terms_match(terms@, before),
                    product@ == merged(self@.spins[i as int], other@.spins[i as int]),
                    phase == Phase::of_exponent(
                        merged_exponent(self@.spins[i as int], other@.spins[i as int]),
                    ),
                    next@.len() == t,
                    forall|k: int|
                        0 <= k < t ==> held_view(#[trigger] next@[k]) == with_spin_factor(
                            before,
                            self@.spins[i as int],
                            other@.spins[i as int],
                        )[k],
                decreases terms.len() - t,
            {
                let mut spins = copy_spins(&terms[t].0);
                let ghost old_spins = spin_views(spins@);
                spins.push(product.clone());
                proof {
                    assert(held_view(terms@[t as int]) == before[t as int]);
                    assert(spin_views(spins@) =~= old_spins.push(product@));
                    lemma_phase_exponents(
                        terms@[t as int].3.exponent(),
                        merged_exponent(self@.spins[i as int], other@.spins[i as int]),
                    );
                }
                next.push(
                    (
                        spins,
                        copy_bosons(&terms[t].1),
                        copy_fermions(&terms[t].2),
                        terms[t].3.times(phase),
                    ),
                );
                t += 1;
            }
            terms = next;
            i += 1;
        }
        // the bosonic subsystems
        let mut j: usize = 0;
        while j < self.bosons.len()
            invariant
                j <= self.bosons.len(),
                self.bosons.len() == other.bosons.len(),
                self@.spins.len() == self.spins.len(),
                i == self.spins.len(),
                held_terms_match(terms@, boson_stage(self@, other@, j as nat)),
            decreases self.bosons.len() - j,
        {
            let ghost before = boson_stage(self@, other@, j as nat);
            let ghost alternatives = boson_product_terms(
                self@.bosons[j as int],
                other@.bosons[j as int],
            );
            let products = self.bosons[j].multiply(&other.bosons[j]);
            let mut next: Vec<HeldTerm> = Vec::new();
            let mut t: usize = 0;
            assert(before.take(0) =~= Seq::<MixedTerm>::empty());
            while t < terms.len()
                invariant
                    t <= terms.len(),
                    held_terms_match(terms@, before),
                    alternatives == boson_product_terms(
                        self@.bosons[j as int],
                        other@.bosons[j as int],
                    ),
                    products@.len() == alternatives.len(),
                    forall|k: int| 0 <= k < products@.len() ==> (#[trigger] products@[k])@ == alternatives[k],
                    held_terms_match(next@, with_boson_factor(before.take(t as int), alternatives)),
                decreases terms.len() - t,
            {
                let ghost head = with_boson_factor(before.take(t as int), alternatives);
                let ghost tail = boson_alternatives(before[t as int], alternatives);
                proof {
                    assert(before.take(t + 1).drop_last() =~= before.take(t as int));
                    assert(before.take(t + 1).last() == before[t as int]);
                    assert(held_view(terms@[t as int]) == before[t as int]);
                }
                let mut a: usize = 0;
                while a < products.len()
                    invariant
                        a <= products.len(),
                        t < terms.len(),
                        held_view(terms@[t as int]) == before[t as int],
                        products@.len() == alternatives.len(),
                        forall|k: int|
                            0 <= k < products@.len() ==> (#[trigger] products@[k])@ == alternatives[k],
                        tail == boson_alternatives(before[t as int], alternatives),
                        next@.len() == head.len() + a,
                        forall|k: int| 0 <= k < head.len() ==> held_view(#[trigger] next@[k]) == head[k],
                        forall|k: int|
                            0 <= k < a ==> held_view(#[trigger] next@[head.len() + k]) == tail[k],
                    decreases products.len() - a,
                {
                    let mut bosons = copy_bosons(&terms[t].1);
                    let ghost old_bosons = boson_views(bosons@);
                    bosons.push(products[a].clone());
                    proof {
                        assert(boson_views(bosons@) =~= old_bosons.push(products@[a as int]@));
                    }
                    next.push(
                        (copy_spins(&terms[t].0), bosons, copy_fermions(&terms[t].2), terms[t].3),
                    );
                    a += 1;
                }
                proof {
                    let after = with_boson_factor(before.take(t + 1), alternatives);
                    assert(after =~= head + tail);
                    assert forall|k: int| 0 <= k < next@.len() implies held_view(
                        #[trigger] next@[k],
                    ) == after[k] by {
                        if k >= head.len() {
                            assert(held_view(next@[head.len() + (k - head.len())]) == tail[k
                                - head.len()]);
                        }
                    }
                }
                t += 1;
            }
            proof {
                assert(before.take(t as int) =~= before);
            }
            terms = next;
            j += 1;
        }
        // the fermionic subsystems
        let mut f: usize = 0;
        while f < self.fermions.len()
            invariant
                f <= self.fermions.len(),
                self.fermions.len() == other.fermions.len(),
                self@.bosons.len() == self.bosons.len(),
                j == self.bosons.len(),
                held_terms_match(terms@, fermion_stage(self@, other@, f as nat)),
            decreases self.fermions.len() - f,
        {
            let ghost before = fermion_stage(self@, other@, f as nat);
            let ghost alternatives = fermion_product_terms(
                self@.fermions[f as int],
                other@.fermions[f as int],
            );
            let products = self.fermions[f].multiply(&other.fermions[f]);
            let mut next: Vec<HeldTerm> = Vec::new();
            let mut t: usize = 0;
            assert(before.take(0) =~= Seq::<MixedTerm>::empty());
            while t < terms.len()
                invariant
                    t <= terms.len(),
                    held_terms_match(terms@, before),
                    alternatives == fermion_product_terms(
                        self@.fermions[f as int],
                        other@.fermions[f as int],
                    ),
                    products@.len() == alternatives.len(),
                    forall|k: int|
                        0 <= k < products@.len() ==> (#[trigger] products@[k]).0@ == alternatives[k].0
                            && products@[k].1 == alternatives[k].1,
                    held_terms_match(next@, with_fermion_factor(before.take(t as int), alternatives)),
                decreases terms.len() - t,
            {
                let ghost head = with_fermion_factor(before.take(t as int), alternatives);
                let ghost tail = fermion_alternatives(before[t as int], alternatives);
                proof {
                    assert(before.take(t + 1).drop_last() =~= before.take(t as int));
                    assert(before.take(t + 1).last() == before[t as int]);
                    assert(held_view(terms@[t as int]) == before[t as int]);
                }
                let mut a: usize = 0;
                while a < products.len()
                    invariant
                        a <= products.len(),
                        t < terms.len(),
                        held_view(terms@[t as int]) == before[t as int],
                        products@.len() == alternatives.len(),
                        forall|k: int|
                            0 <= k < products@.len() ==> (#[trigger] products@[k]).0@
                                == alternatives[k].0 && products@[k].1 == alternatives[k].1,
                        tail == fermion_alternatives(before[t as int], alternatives),
                        next@.len() == head.len() + a,
                        forall|k: int| 0 <= k < head.len() ==> held_view(#[trigger] next@[k]) == head[k],
                        forall|k: int|
                            0 <= k < a ==> held_view(#[trigger] next@[head.len() + k]) == tail[k],
                    decreases products.len() - a,
                {
                    let mut fermions = copy_fermions(&terms[t].2);
                    let ghost old_fermions = fermion_views(fermions@);
                    fermions.push(products[a].0.clone());
                    let factor = match products[a].1 {
                        Sign::Minus => Phase::MinusOne,
                        _ => Phase::One,
                    };
                    proof {
                        assert(fermion_views(fermions@) =~= old_fermions.push(products@[a as int].0@));
                    }
                    next.push(
                        (
                            copy_spins(&terms[t].0),
                            copy_bosons(&terms[t].1),
                            fermions,
                            terms[t].3.times(factor),
                        ),
                    );
                    a += 1;
                }
                proof {
                    let after = with_fermion_factor(before.take(t + 1), alternatives);
                    assert(after =~= head + tail);
                    assert forall|k: int| 0 <= k < next@.len() implies held_view(
                        #[trigger] next@[k],
                    ) == after[k] by {
                        if k >= head.len() {
                            assert(held_view(next@[head.len() + (k - head.len())]) == tail[k
                                - head.len()]);
                        }
                    }
                }
                t += 1;
            }
            proof {
                assert(before.take(t as int) =~= before);
            }
            terms = next;
            f += 1;
        }
        let mut r: Vec<(MixedProduct, Phase)> = Vec::new();
        let mut k: usize = 0;
        while k < terms.len()
            invariant
                k <= terms.len(),
                self@.fermions.len() == self.fermions.len(),
                held_terms_match(terms@, mixed_product_terms(self@, other@)),
                r@.len() == k,
                forall|m: int|
                    0 <= m < k ==> (#[trigger] r@[m]).0@ == mixed_product_terms(self@, other@)[m].0
                        && r@[m].1 == mixed_product_terms(self@, other@)[m].1,
            decreases terms.len() - k,
        {
            proof {
                assert(held_view(terms@[k as int]) == mixed_product_terms(self@, other@)[k as int]);
            }
            r.push(
                (
                    MixedProduct {
                        spins: copy_spins(&terms[k].0),
                        bosons: copy_bosons(&terms[k].1),
                        fermions: copy_fermions(&terms[k].2),
                    },
                    terms[k].3,
                ),
            );
            k += 1;
        }
        Ok(r)
    }
}

/// Whether a mixed product has each of its products in canonical form.
pub open spec fn mixed_canonical(v: MixedView) -> bool {
    &&& forall|i: int| 0 <= i < v.spins.len() ==> site_canonical(#[trigger] v.spins[i])
    &&& forall|i: int| 0 <= i < v.bosons.len() ==> boson_canonical(#[trigger] v.bosons[i])
    &&& forall|i: int| 0 <= i < v.fermions.len() ==> fermion_canonical(#[trigger] v.fermions[i])
}

/// Whether a text has no colon.
pub open spec fn no_colon(text: Seq<char>) -> bool {
    forall|i: int| 0 <= i < text.len() ==> text[i] != ':'
}

/// The text of a row of tokens has no colon where no symbol is a colon.
pub proof fn lemma_render_no_colon(tokens: Seq<(char, usize)>, number_first: bool)
    requires
        forall|i: int| 0 <= i < tokens.len() ==> (#[trigger] tokens[i]).0 != ':',
    ensures
        no_colon(render(tokens, number_first)),
    decreases tokens.len(),
{
    if tokens.len() > 0 {
        let rest = tokens.drop_first();
        assert forall|i: int| 0 <= i < rest.len() implies (#[trigger] rest[i]).0 != ':' by {
            assert(rest[i] == tokens[i + 1]);
        }
        lemma_render_no_colon(rest, number_first);
        lemma_decimal(tokens[0].1 as nat);
        let d = decimal(tokens[0].1 as nat);
        let head = render_token(tokens[0], number_first);
        assert(no_colon(head)) by {
            assert forall|i: int| 0 <= i < head.len() implies head[i] != ':' by {
                if number_first {
                    if i < d.len() {
                        assert(is_digit(d[i]));
                    }
                } else {
                    if i > 0 {
                        assert(is_digit(d[i - 1]));
                        assert(head[i] == d[i - 1]);
                    }
                }
            }
        }
        let all = render(tokens, number_first);
        let tail = render(rest, number_first);
        assert(all =~= head + tail);
        assert forall|i: int| 0 <= i < all.len() implies all[i] != ':' by {
            if i < head.len() {
                assert(all[i] == head[i]);
            } else {
                assert(all[i] == tail[i - head.len()]);
            }
        }
    }
}

/// The text of a product of modes has no colon.
pub proof fn lemma_mode_text_no_colon(lists: ModeLists)
    ensures
        no_colon(mode_text(lists)),
{
    if lists.creators.len() == 0 && lists.annihilators.len() == 0 {
    } else {
        lemma_render_no_colon(mode_tokens(lists), false);
    }
}

/// The text of a Pauli product has no colon.
pub proof fn lemma_pauli_text_no_colon(items: PauliItems)
    ensures
        no_colon(site_text(items)),
{
    if items.len() > 0 {
        lemma_render_no_colon(site_tokens(items), true);
    }
}

/// Reading goes on through a text without colons: the section that has
/// begun grows by the text.
pub proof fn lemma_sections_append(start: Seq<char>, text: Seq<char>)
    requires
        sections_read(start).is_some(),
        no_colon(text),
    ensures
        sections_read(start + text) == Some(
            (sections_read(start).unwrap().0, sections_read(start).unwrap().1 + text),
        ),
    decreases text.len(),
{
    if text.len() == 0 {
        assert(start + text =~= start);
        assert(sections_read(start).unwrap().1 + text =~= sections_read(start).unwrap().1);
    } else {
        let head = text.drop_last();
        assert forall|i: int| 0 <= i < head.len() implies head[i] != ':' by {
            assert(head[i] == text[i]);
        }
        lemma_sections_append(start, head);
        assert((start + text).drop_last() =~= start + head);
        assert((start + text).last() == text.last());
        assert(text[text.len() - 1] != ':');
        assert((sections_read(start).unwrap().1 + head).push(text.last()) =~= sections_read(
            start,
        ).unwrap().1 + text);
    }
}

/// A section between colons adds the product that it names.
pub proof fn lemma_section_read(start: Seq<char>, kind: char, text: Seq<char>)
    requires
        sections_read(start).is_some(),
        sections_read(start).unwrap().1.len() == 0,
        kind != ':',
        no_colon(text),
        with_section(sections_read(start).unwrap().0, seq![kind] + text).is_some(),
    ensures
        sections_read(start + seq![kind] + text + seq![':']) == Some(
            (
                with_section(sections_read(start).unwrap().0, seq![kind] + text).unwrap(),
                Seq::<char>::empty(),
            ),
        ),
{
    let section = seq![kind] + text;
    assert(no_colon(section)) by {
        assert forall|i: int| 0 <= i < section.len() implies section[i] != ':' by {
            if i > 0 {
                assert(section[i] == text[i - 1]);
            }
        }
    }
    lemma_sections_append(start, section);
    let all = start + seq![kind] + text + seq![':'];
    assert(all.drop_last() =~= start + section);
    assert(all.last() == ':');
    assert(sections_read(start).unwrap().1 + section =~= section);
}

/// The view with the first products of each kind of a mixed product.
pub open spec fn mixed_part(v: MixedView, spins: int, bosons: int, fermions: int) -> MixedView {
    MixedView {
        spins: v.spins.take(spins),
        bosons: v.bosons.take(bosons),
        fermions: v.fermions.take(fermions),
    }
}

/// Reading the text of the first spin subsystems gives their products.
pub proof fn lemma_spins_read(v: MixedView, count: int)
    requires
        mixed_canonical(v),
        0 <= count <= v.spins.len(),
    ensures
        sections_read(spins_text(v.spins.take(count))) == Some(
            (mixed_part(v, count, 0, 0), Seq::<char>::empty()),
        ),
    decreases count,
{
    if count == 0 {
        assert(v.spins.take(0) =~= Seq::<PauliItems>::empty());
        assert(v.bosons.take(0) =~= Seq::<ModeLists>::empty());
        assert(v.fermions.take(0) =~= Seq::<ModeLists>::empty());
        assert(spins_text(v.spins.take(0)) =~= Seq::<char>::empty());
    } else {
        lemma_spins_read(v, count - 1);
        let start = spins_text(v.spins.take(count - 1));
        let items = v.spins[count - 1];
        assert(v.spins.take(count).drop_last() =~= v.spins.take(count - 1));
        assert(v.spins.take(count).last() == items);
        lemma_pauli_text_no_colon(items);
        crate::site_product::lemma_site_text_round_trip::<SingleSpinOperator>(items);
        let text = site_text(items);
        assert((seq!['S'] + text).skip(1) =~= text);
        assert(v.spins.take(count - 1).push(items) =~= v.spins.take(count));
        lemma_section_read(start, 'S', text);
        assert(spins_text(v.spins.take(count)) =~= start + seq!['S'] + text + seq![':']);
    }
}

/// Reading the text of the spin subsystems and the first bosonic
/// subsystems gives their products.
pub proof fn lemma_bosons_read(v: MixedView, count: int)
    requires
        mixed_canonical(v),
        0 <= count <= v.bosons.len(),
    ensures
        sections_read(spins_text(v.spins) + modes_text(v.bosons.take(count), 'B')) == Some(
            (mixed_part(v, v.spins.len() as int, count, 0), Seq::<char>::empty()),
        ),
    decreases count,
{
    let head = spins_text(v.spins);
    if count == 0 {
        lemma_spins_read(v, v.spins.len() as int);
        assert(v.spins.take(v.spins.len() as int) =~= v.spins);
        assert(modes_text(v.bosons.take(0), 'B') =~= Seq::<char>::empty());
        assert(head + modes_text(v.bosons.take(0), 'B') =~= head);
    } else {
        lemma_bosons_read(v, count - 1);
        let start = head + modes_text(v.bosons.take(count - 1), 'B');
        let lists = v.bosons[count - 1];
        assert(v.bosons.take(count).drop_last() =~= v.bosons.take(count - 1));
        assert(v.bosons.take(count).last() == lists);
        lemma_mode_text_no_colon(lists);
        lemma_boson_text_round_trip(lists);
        let text = mode_text(lists);
        assert((seq!['B'] + text).skip(1) =~= text);
        assert(v.bosons.take(count - 1).push(lists) =~= v.bosons.take(count));
        lemma_section_read(start, 'B', text);
        assert(head + modes_text(v.bosons.take(count), 'B') =~= start + seq!['B'] + text
            + seq![':']);
    }
}

/// Reading the text of the spin subsystems, the bosonic subsystems and the
/// first fermionic subsystems gives their products.
pub proof fn lemma_fermions_read(v: MixedView, count: int)
    requires
        mixed_canonical(v),
        0 <= count <= v.fermions.len(),
    ensures
        sections_read(
            spins_text(v.spins) + modes_text(v.bosons, 'B') + modes_text(
                v.fermions.take(count),
                'F',
            ),
        ) == Some(
            (
                mixed_part(v, v.spins.len() as int, v.bosons.len() as int, count),
                Seq::<char>::empty(),
            ),
        ),
    decreases count,
{
    let head = spins_text(v.spins) + modes_text(v.bosons, 'B');
    if count == 0 {
        lemma_bosons_read(v, v.bosons.len() as int);
        assert(v.bosons.take(v.bosons.len() as int) =~= v.bosons);
        assert(modes_text(v.fermions.take(0), 'F') =~= Seq::<char>::empty());
        assert(head + modes_text(v.fermions.take(0), 'F') =~= head);
    } else {
        lemma_fermions_read(v, count - 1);
        let start = head + modes_text(v.fermions.take(count - 1), 'F');
        let lists = v.fermions[count - 1];
        assert(v.fermions.take(count).drop_last() =~= v.fermions.take(count - 1));
        assert(v.fermions.take(count).last() == lists);
        lemma_mode_text_no_colon(lists);
        lemma_fermion_text_round_trip(lists);
        let text = mode_text(lists);
        assert((seq!['F'] + text).skip(1) =~= text);
        assert(v.fermions.take(count - 1).push(lists) =~= v.fermions.take(count));
        lemma_section_read(start, 'F', text);
        assert(head + modes_text(v.fermions.take(count), 'F') =~= start + seq!['F'] + text
            + seq![':']);
    }
}

/// Canonicalisation idempotence for mixed products: reading the text of a
/// mixed product whose products are canonical gives the mixed product back.
pub proof fn lemma_mixed_text_round_trip(v: MixedView)
    requires
        mixed_canonical(v),
    ensures
        parse_mixed_text(mixed_text(v)) == Some(v),
{
    lemma_fermions_read(v, v.fermions.len() as int);
    assert(v.fermions.take(v.fermions.len() as int) =~= v.fermions);
    assert(v.spins.take(v.spins.len() as int) =~= v.spins);
    assert(v.bosons.take(v.bosons.len() as int) =~= v.bosons);
}

/// The largest span among a row of Pauli products.
pub open spec fn spins_span(spins: Seq<PauliItems>) -> nat
    decreases spins.len(),
{
    if spins.len() == 0 {
        0
    } else if site_span(spins.last()) > spins_span(spins.drop_last()) {
        site_span(spins.last())
    } else {
        spins_span(spins.drop_last())
    }
}

/// The largest span among a row of products of modes.
pub open spec fn modes_span(modes: Seq<ModeLists>) -> nat
    decreases modes.len(),
{
    if modes.len() == 0 {
        0
    } else if mode_span(modes.last()) > modes_span(modes.drop_last()) {
        mode_span(modes.last())
    } else {
        modes_span(modes.drop_last())
    }
}

/// The largest span among the products of a mixed product.
pub open spec fn mixed_span(v: MixedView) -> nat {
    let s = spins_span(v.spins);
    let b = modes_span(v.bosons);
    let f = modes_span(v.fermions);
    if s >= b && s >= f {
        s
    } else if b >= f {
        b
    } else {
        f
    }
}

/// The numbers of operators that a caller asks of each subsystem: the
/// number of spins for each spin subsystem, and the numbers of creators and
/// of annihilators for each bosonic and for each fermionic subsystem.
pub type MixedShape = (Vec<usize>, Vec<(usize, usize)>, Vec<(usize, usize)>);

/// Whether a mixed product has the given numbers of operators.
pub open spec fn mixed_has_shape(v: MixedView, shape: MixedShape) -> bool {
    &&& shape.0@.len() == v.spins.len()
    &&& shape.1@.len() == v.bosons.len()
    &&& shape.2@.len() == v.fermions.len()
    &&& forall|i: int| 0 <= i < v.spins.len() ==> (#[trigger] v.spins[i]).len() == shape.0@[i]
    &&& forall|i: int|
        0 <= i < v.bosons.len() ==> (#[trigger] v.bosons[i]).creators.len() == shape.1@[i].0
            && v.bosons[i].annihilators.len() == shape.1@[i].1
    &&& forall|i: int|
        0 <= i < v.fermions.len() ==> (#[trigger] v.fermions[i]).creators.len() == shape.2@[i].0
            && v.fermions[i].annihilators.len() == shape.2@[i].1
}

/// The modes of the adjoint of each product of a row are those of the
/// product: the spans agree.
pub proof fn lemma_modes_span_conjugate(modes: Seq<ModeLists>)
    ensures
        modes_span(Seq::new(modes.len(), |i: int| mode_conjugate(modes[i]))) == modes_span(modes),
        modes_span(Seq::new(modes.len(), |i: int| fermion_conjugate(modes[i]))) == modes_span(
            modes,
        ),
    decreases modes.len(),
{
    let a = Seq::new(modes.len(), |i: int| mode_conjugate(modes[i]));
    let b = Seq::new(modes.len(), |i: int| fermion_conjugate(modes[i]));
    if modes.len() > 0 {
        let rest = modes.drop_last();
        lemma_modes_span_conjugate(rest);
        assert(a.drop_last() =~= Seq::new(rest.len(), |i: int| mode_conjugate(rest[i])));
        assert(b.drop_last() =~= Seq::new(rest.len(), |i: int| fermion_conjugate(rest[i])));
    }
}

impl OperatorKey for MixedProduct {
    type Shape = MixedShape;

    open spec fn span(v: MixedView) -> nat {
        mixed_span(v)
    }

    open spec fn has_shape(v: MixedView, shape: MixedShape) -> bool {
        mixed_has_shape(v, shape)
    }

    fn same_key(&self, other: &Self) -> (b: bool) {
        assert(self@.spins.len() == self.spins@.len() && other@.spins.len() == other.spins@.len());
        assert(self@.bosons.len() == self.bosons@.len() && other@.bosons.len()
            == other.bosons@.len());
        assert(self@.fermions.len() == self.fermions@.len() && other@.fermions.len()
            == other.fermions@.len());
        if self.spins.len() != other.spins.len() || self.bosons.len() != other.bosons.len()
            || self.fermions.len() != other.fermions.len() {
            return false;
        }
        let mut i: usize = 0;
        while i < self.spins.len()
            invariant
                i <= self.spins.len(),
                self.spins.len() == other.spins.len(),
                forall|k: int| 0 <= k < i ==> self.spins@[k]@ == other.spins@[k]@,
            decreases self.spins.len() - i,
        {
            if !self.spins[i].same_key(&other.spins[i]) {
                assert(self@.spins[i as int] != other@.spins[i as int]);
                return false;
            }
            i += 1;
        }
        let mut j: usize = 0;
        while j < self.bosons.len()
            invariant
                j <= self.bosons.len(),
                self.bosons.len() == other.bosons.len(),
                forall|k: int| 0 <= k < j ==> self.bosons@[k]@ == other.bosons@[k]@,
            decreases self.bosons.len() - j,
        {
            if !self.bosons[j].same_key(&other.bosons[j]) {
                assert(self@.bosons[j as int] != other@.bosons[j as int]);
                return false;
            }
            j += 1;
        }
        let mut f: usize = 0;
        while f < self.fermions.len()
            invariant
                f <= self.fermions.len(),
                self.fermions.len() == other.fermions.len(),
                forall|k: int| 0 <= k < f ==> self.fermions@[k]@ == other.fermions@[k]@,
            decreases self.fermions.len() - f,
        {
            if !self.fermions[f].same_key(&other.fermions[f]) {
                assert(self@.fermions[f as int] != other@.fermions[f as int]);
                return false;
            }
            f += 1;
        }
        assert(self@.spins =~= other@.spins);
        assert(self@.bosons =~= other@.bosons);
        assert(self@.fermions =~= other@.fermions);
        true
    }

    fn copy_key(&self) -> (r: Self) {
        self.clone()
    }

    fn key_span(&self) -> (n: usize) {
        let mut best: usize = 0;
        let mut i: usize = 0;
        assert(self@.spins.take(0) =~= Seq::<PauliItems>::empty());
        while i < self.spins.len()
            invariant
                i <= self.spins.len(),
                best == spins_span(self@.spins.take(i as int)),
            decreases self.spins.len() - i,
        {
            proof {
                assert(self@.spins.take(i + 1).drop_last() =~= self@.spins.take(i as int));
                assert(self@.spins.take(i + 1).last() == self.spins@[i as int]@);
            }
            let here = self.spins[i].current_number_spins();
            if here > best {
                best = here;
            }
            i += 1;
        }
        assert(self@.spins.take(i as int) =~= self@.spins);
        let spins = best;
        let mut best: usize = 0;
        let mut j: usize = 0;
        assert(self@.bosons.take(0) =~= Seq::<ModeLists>::empty());
        while j < self.bosons.len()
            invariant
                j <= self.bosons.len(),
                best == modes_span(self@.bosons.take(j as int)),
            decreases self.bosons.len() - j,
        {
            proof {
                assert(self@.bosons.take(j + 1).drop_last() =~= self@.bosons.take(j as int));
                assert(self@.bosons.take(j + 1).last() == self.bosons@[j as int]@);
            }
            let here = self.bosons[j].current_number_modes();
            if here > best {
                best = here;
            }
            j += 1;
        }
        assert(self@.bosons.take(j as int) =~= self@.bosons);
        let bosons = best;
        let mut best: usize = 0;
        let mut f: usize = 0;
        assert(self@.fermions.take(0) =~= Seq::<ModeLists>::empty());
        while f < self.fermions.len()
            invariant
                f <= self.fermions.len(),
                best == modes_span(self@.fermions.take(f as int)),
            decreases self.fermions.len() - f,
        {
            proof {
                assert(self@.fermions.take(f + 1).drop_last() =~= self@.fermions.take(f as int));
                assert(self@.fermions.take(f + 1).last() == self.fermions@[f as int]@);
            }
            let here = self.fermions[f].current_number_modes();
            if here > best {
                best = here;
            }
            f += 1;
        }
        assert(self@.fermions.take(f as int) =~= self@.fermions);
        let fermions = best;
        if spins >= bosons && spins >= fermions {
            spins
        } else if bosons >= fermions {
            bosons
        } else {
            fermions
        }
    }

    fn key_has_shape(&self, shape: &MixedShape) -> (b: bool) {
        if shape.0.len() != self.spins.len() || shape.1.len() != self.bosons.len() || shape.2.len()
            != self.fermions.len() {
            return false;
        }
        let mut i: usize = 0;
        while i < self.spins.len()
            invariant
                i <= self.spins.len(),
                shape.0@.len() == self.spins.len(),
                forall|k: int| 0 <= k < i ==> (#[trigger] self@.spins[k]).len() == shape.0@[k],
            decreases self.spins.len() - i,
        {
            if self.spins[i].len() != shape.0[i] {
                assert(self@.spins[i as int].len() != shape.0@[i as int]);
                return false;
            }
            i += 1;
        }
        let mut j: usize = 0;
        while j < self.bosons.len()
            invariant
                j <= self.bosons.len(),
                shape.1@.len() == self.bosons.len(),
                forall|k: int|
                    0 <= k < j ==> (#[trigger] self@.bosons[k]).creators.len() == shape.1@[k].0
                        && self@.bosons[k].annihilators.len() == shape.1@[k].1,
            decreases self.bosons.len() - j,
        {
            if self.bosons[j].number_creators() != shape.1[j].0
                || self.bosons[j].number_annihilators() != shape.1[j].1 {
                assert(!(self@.bosons[j as int].creators.len() == shape.1@[j as int].0
                    && self@.bosons[j as int].annihilators.len() == shape.1@[j as int].1));
                return false;
            }
            j += 1;
        }
        let mut f: usize = 0;
        while f < self.fermions.len()
            invariant
                f <= self.fermions.len(),
                shape.2@.len() == self.fermions.len(),
                forall|k: int|
                    0 <= k < f ==> (#[trigger] self@.fermions[k]).creators.len() == shape.2@[k].0
                        && self@.fermions[k].annihilators.len() == shape.2@[k].1,
            decreases self.fermions.len() - f,
        {
            if self.fermions[f].number_creators() != shape.2[f].0
                || self.fermions[f].number_annihilators() != shape.2[f].1 {
                assert(!(self@.fermions[f as int].creators.len() == shape.2@[f as int].0
                    && self@.fermions[f as int].annihilators.len() == shape.2@[f as int].1));
                return false;
            }
            f += 1;
        }
        true
    }
}

impl ConjugateKey for MixedProduct {
    open spec fn conjugate(v: MixedView) -> MixedView {
        mixed_conjugate(v)
    }

    open spec fn conjugate_sign(v: MixedView) -> Sign {
        mixed_conjugate_sign(v.fermions)
    }

    open spec fn natural_hermitian(v: MixedView) -> bool {
        (forall|i: int|
            0 <= i < v.bosons.len() ==> mode_conjugate(#[trigger] v.bosons[i]) == v.bosons[i])
            && (forall|i: int|
            0 <= i < v.fermions.len() ==> fermion_conjugate(#[trigger] v.fermions[i])
                == v.fermions[i])
    }

    proof fn lemma_conjugate_span(v: MixedView) {
        lemma_modes_span_conjugate(v.bosons);
        lemma_modes_span_conjugate(v.fermions);
    }

    fn key_conjugate(&self) -> (r: (Self, Sign)) {
        self.hermitian_conjugate()
    }

    fn key_is_natural_hermitian(&self) -> (b: bool) {
        self.is_natural_hermitian()
    }
}

impl TextKey for MixedProduct {
    open spec fn arity() -> nat {
        1
    }

    open spec fn canonical(v: MixedView) -> bool {
        mixed_canonical(v)
    }

    open spec fn texts(v: MixedView) -> Seq<Seq<char>> {
        seq![mixed_text(v)]
    }

    open spec fn of_texts(texts: Seq<Seq<char>>) -> Option<MixedView> {
        if texts.len() == 1 {
            parse_mixed_text(texts[0])
        } else {
            None
        }
    }

    proof fn lemma_texts(v: MixedView) {
        lemma_mixed_text_round_trip(v);
    }

    open spec fn family() -> Seq<char> {
        "Mixed"@
    }

    fn key_family() -> (r: String) {
        "Mixed".to_owned()
    }

    fn key_arity() -> (n: usize) {
        1
    }

    fn key_texts(&self) -> (r: Vec<String>) {
        let mut r: Vec<String> = Vec::new();
        let text = self.to_string();
        canonical_parts(&self.spins, &self.bosons, &self.fermions);
        r.push(text);
        assert(texts_view(r@) =~= seq![mixed_text(self@)]);
        r
    }

    fn key_from_texts(texts: &Vec<String>, from: usize) -> (r: Option<Self>) {
        assert(texts_view(texts@).subrange(from as int, from + 1)[0] == texts@[from as int]@);
        match MixedProduct::from_str(texts[from].as_str()) {
            Ok(key) => Some(key),
            Err(_) => None,
        }
    }
}

impl SingleTextKey for MixedProduct {
    proof fn lemma_single() {
    }
}

impl MixedProduct {
    /// The binary form of the product: the binary form of its text.
    ///
    /// Fails with `DecodeError` where `bincode` writes none.
    pub fn to_bincode(&self) -> (r: Result<Vec<u8>, StruqtureError>)
        ensures
            match text_binary_form(mixed_text(self@)) {
                Some(bytes) => r.is_ok() && r.unwrap()@ == bytes,
                None => r == Err::<Vec<u8>, StruqtureError>(StruqtureError::DecodeError),
            },
    {
        product_to_bincode(self)
    }

    /// The product that bytes are the binary form of.
    ///
    /// Fails with `DecodeError` where the bytes are the binary form of no
    /// text, or of a text that names no mixed product.
    pub fn from_bincode(bytes: &[u8]) -> (r: Result<Self, StruqtureError>)
        ensures
            match product_of_bytes::<MixedProduct>(bytes@) {
                Some(v) => r.is_ok() && r.unwrap()@ == v,
                None => r == Err::<Self, StruqtureError>(StruqtureError::DecodeError),
            },
    {
        product_from_bincode(bytes)
    }

    /// The JSON form of the product: its text as a JSON string.
    ///
    /// Fails with `DecodeError` where `serde_json` writes none.
    pub fn to_json(&self) -> (r: Result<String, StruqtureError>)
        ensures
            match text_json_form(mixed_text(self@)) {
                Some(json) => r.is_ok() && r.unwrap()@ == json,
                None => r == Err::<String, StruqtureError>(StruqtureError::DecodeError),
            },
    {
        product_to_json(self)
    }

    /// The product that a JSON string names.
    ///
    /// Fails with `DecodeError` where the input is no JSON, the JSON is no
    /// string, or its text names no mixed product.
    pub fn from_json(input: &str) -> (r: Result<Self, StruqtureError>)
        ensures
            match product_of_json::<MixedProduct>(input@) {
                Some(v) => r.is_ok() && r.unwrap()@ == v,
                None => r == Err::<Self, StruqtureError>(StruqtureError::DecodeError),
            },
    {
        product_from_json(input)
    }
}

} // verus!
