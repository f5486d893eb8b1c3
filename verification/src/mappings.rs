//! The Jordan-Wigner mapping from spins to fermions.
//!
//! A spin that points up is a mode that is empty. Pauli Z on site `k`
//! becomes `1 - 2 n_k`, where `n_k` counts the fermions in mode `k`. X and Y
//! on site `k` become `c_k + a_k` and `i (c_k - a_k)`, with `c_k` creating
//! and `a_k` annihilating a fermion in mode `k`, each behind the string of
//! the operators `1 - 2 n_j` for all modes `j` below `k`: the string makes
//! operators on different sites commute, as spin operators do. The
//! operator iY, which labels noise terms, becomes `a_k - c_k` behind the
//! same string, and the operators that raise and lower a spin become `a_k`
//! and `c_k` behind it.

use crate::coefficient::{coeff_clone, coeff_from_ints, coeff_of_ints, coeff_vanishes};
use crate::fermions::fermion_product::{fermion_span, FermionProduct};
use crate::error::StruqtureError;
use crate::fermions::hermitian_fermion_product::HermitianFermionProduct;
use crate::fermions::{
    FermionHamiltonian, FermionHamiltonianSystem, FermionLindbladNoiseOperator,
    FermionLindbladNoiseSystem, FermionLindbladOpenSystem, FermionOperator, FermionSystem,
};
use crate::indices::span;
use crate::key::OperatorKey;
use crate::modes::{lemma_span_bounds, lex_less, ModeLists};
use crate::pair::{noise_row, noise_rows};
use crate::operator::{
    accumulate, accumulate_terms, all_products, changed, distinct_keys, has_key,
    lemma_accumulate_concat, lemma_accumulate_keys, lemma_accumulate_terms_within,
    lemma_terms_map_take, takes, SelfAdjoint, lemma_all_products_within, lemma_terms_map_at,
    map_sum, place_of, reach, terms_map, terms_within, CoefficientChange, CoefficientRule,
    Operator, TermMap,
};
use crate::site_product::{site_canonical, site_span, sites, SiteProduct, SiteSymbol};
use crate::spins::decoherence_product::SingleDecoherenceOperator;
use crate::spins::pauli_product::SingleSpinOperator;
use crate::spins::plus_minus_product::SinglePlusMinusOperator;
use crate::spins::{SpinHamiltonian, SpinLindbladOpenSystem};
use crate::open_system::common_number;
use crate::system::{within_capacity, System};
use qoqo_calculator::CalculatorComplex;
use vstd::prelude::*;

verus! {

/// A single-site spin operator with its fermionic image.
///
/// The identity stays the identity. A diagonal operator on site `k` becomes
/// `1 - 2 n_k`. Any other becomes a sum of `c_k` and `a_k`, each with a
/// factor of its own, behind the string of the site.
pub trait SpinSymbol: SiteSymbol {
    /// Whether the operator is diagonal.
    spec fn diagonal(self) -> bool;

    /// The factor of `c_k` in the image, as real and imaginary part.
    spec fn raising(self) -> (i32, i32);

    /// The factor of `a_k` in the image, as real and imaginary part.
    spec fn lowering(self) -> (i32, i32);

    /// Whether the operator is diagonal.
    fn is_diagonal(&self) -> (b: bool)
        ensures
            b == self.diagonal(),
    ;

    /// The factor of `c_k` in the image.
    fn raising_factor(&self) -> (r: (i32, i32))
        ensures
            r == self.raising(),
    ;

    /// The factor of `a_k` in the image.
    fn lowering_factor(&self) -> (r: (i32, i32))
        ensures
            r == self.lowering(),
    ;
}

impl SpinSymbol for SingleSpinOperator {
    open spec fn diagonal(self) -> bool {
        self == SingleSpinOperator::Z
    }

    open spec fn raising(self) -> (i32, i32) {
        if self == SingleSpinOperator::Y {
            (0i32, 1i32)
        } else {
            (1i32, 0i32)
        }
    }

    open spec fn lowering(self) -> (i32, i32) {
        if self == SingleSpinOperator::Y {
            (0i32, -1i32)
        } else {
            (1i32, 0i32)
        }
    }

    fn is_diagonal(&self) -> (b: bool) {
        matches!(self, SingleSpinOperator::Z)
    }

    fn raising_factor(&self) -> (r: (i32, i32)) {
        match self {
            SingleSpinOperator::Y => (0, 1),
            _ => (1, 0),
        }
    }

    fn lowering_factor(&self) -> (r: (i32, i32)) {
        match self {
            SingleSpinOperator::Y => (0, -1),
            _ => (1, 0),
        }
    }
}

impl SpinSymbol for SingleDecoherenceOperator {
    open spec fn diagonal(self) -> bool {
        self == SingleDecoherenceOperator::Z
    }

    open spec fn raising(self) -> (i32, i32) {
        if self == SingleDecoherenceOperator::IY {
            (-1i32, 0i32)
        } else {
            (1i32, 0i32)
        }
    }

    open spec fn lowering(self) -> (i32, i32) {
        (1i32, 0i32)
    }

    fn is_diagonal(&self) -> (b: bool) {
        matches!(self, SingleDecoherenceOperator::Z)
    }

    fn raising_factor(&self) -> (r: (i32, i32)) {
        match self {
            SingleDecoherenceOperator::IY => (-1, 0),
            _ => (1, 0),
        }
    }

    fn lowering_factor(&self) -> (r: (i32, i32)) {
        (1, 0)
    }
}

impl SpinSymbol for SinglePlusMinusOperator {
    open spec fn diagonal(self) -> bool {
        self == SinglePlusMinusOperator::Z
    }

    open spec fn raising(self) -> (i32, i32) {
        if self == SinglePlusMinusOperator::Minus {
            (1i32, 0i32)
        } else {
            (0i32, 0i32)
        }
    }

    open spec fn lowering(self) -> (i32, i32) {
        if self == SinglePlusMinusOperator::Plus {
            (1i32, 0i32)
        } else {
            (0i32, 0i32)
        }
    }

    fn is_diagonal(&self) -> (b: bool) {
        matches!(self, SinglePlusMinusOperator::Z)
    }

    fn raising_factor(&self) -> (r: (i32, i32)) {
        match self {
            SinglePlusMinusOperator::Minus => (1, 0),
            _ => (0, 0),
        }
    }

    fn lowering_factor(&self) -> (r: (i32, i32)) {
        match self {
            SinglePlusMinusOperator::Plus => (1, 0),
            _ => (0, 0),
        }
    }
}

/// A row of fermionic terms.
pub type FermionTerms = Seq<(ModeLists, CalculatorComplex)>;

/// The product of nothing.
pub open spec fn no_modes() -> ModeLists {
    ModeLists { creators: Seq::empty(), annihilators: Seq::empty() }
}

/// The product that creates a fermion in a mode.
pub open spec fn creator(k: usize) -> ModeLists {
    ModeLists { creators: seq![k], annihilators: Seq::empty() }
}

/// The product that annihilates a fermion in a mode.
pub open spec fn annihilator(k: usize) -> ModeLists {
    ModeLists { creators: Seq::empty(), annihilators: seq![k] }
}

/// The product that counts the fermions in a mode.
pub open spec fn number(k: usize) -> ModeLists {
    ModeLists { creators: seq![k], annihilators: seq![k] }
}

/// The terms of the sum of two terms.
pub open spec fn two_terms(
    first: (ModeLists, CalculatorComplex),
    second: (ModeLists, CalculatorComplex),
) -> FermionTerms {
    accumulate_terms(Seq::empty(), seq![first, second])
}

/// The terms of the identity.
pub open spec fn unit_terms() -> FermionTerms {
    accumulate_terms(Seq::empty(), seq![(no_modes(), coeff_of_ints(1, 0))])
}

/// The terms of `1 - 2 n_k`, which is `+1` on an empty and `-1` on an
/// occupied mode.
pub open spec fn parity_terms(k: usize) -> FermionTerms {
    two_terms((no_modes(), coeff_of_ints(1, 0)), (number(k), coeff_of_ints(-2, 0)))
}

/// The terms of the product of two rows of fermionic terms.
pub open spec fn product_terms(left: FermionTerms, right: FermionTerms) -> FermionTerms {
    accumulate_terms(Seq::empty(), all_products::<FermionProduct>(left, right))
}

/// The terms of the string of a site: the product of `1 - 2 n_j` for all
/// modes `j` below `k`, in ascending order.
pub open spec fn string_terms(k: nat) -> FermionTerms
    decreases k,
{
    if k == 0 {
        unit_terms()
    } else {
        product_terms(string_terms((k - 1) as nat), parity_terms((k - 1) as usize))
    }
}

/// The terms of the sum of `c_k` and `a_k`, each with its factor.
pub open spec fn ladder_terms(k: usize, raising: (i32, i32), lowering: (i32, i32)) -> FermionTerms {
    two_terms(
        (creator(k), coeff_of_ints(raising.0 as int, raising.1 as int)),
        (annihilator(k), coeff_of_ints(lowering.0 as int, lowering.1 as int)),
    )
}

/// The fermionic terms of a spin operator on one site.
pub open spec fn site_terms<S: SpinSymbol>(k: usize, symbol: S) -> FermionTerms {
    if symbol == S::identity() {
        unit_terms()
    } else if symbol.diagonal() {
        parity_terms(k)
    } else {
        product_terms(
            string_terms(k as nat),
            ladder_terms(k, symbol.raising(), symbol.lowering()),
        )
    }
}

/// The fermionic terms of a product of spin operators: the product of the
/// terms of its sites, in ascending order.
pub open spec fn jordan_wigner_terms<S: SpinSymbol>(items: Seq<(usize, S)>) -> FermionTerms
    decreases items.len(),
{
    if items.len() == 0 {
        unit_terms()
    } else {
        product_terms(
            jordan_wigner_terms(items.drop_last()),
            site_terms(items.last().0, items.last().1),
        )
    }
}

/// The fermionic operator of a spin operator: the sum of the operators of
/// its products, each times the coefficient of the product.
pub open spec fn jordan_wigner_map<S: SpinSymbol>(
    terms: Seq<(Seq<(usize, S)>, CalculatorComplex)>,
) -> TermMap<ModeLists>
    decreases terms.len(),
{
    if terms.len() == 0 {
        Map::empty()
    } else {
        map_sum(
            jordan_wigner_map(terms.drop_last()),
            changed(
                terms_map(jordan_wigner_terms(terms.last().0)),
                CoefficientChange::Scale(terms.last().1),
            ),
        )
    }
}

/// A row of fermionic noise terms.
pub type FermionPairs = Seq<((ModeLists, ModeLists), CalculatorComplex)>;

/// The fermionic noise terms of a row of spin noise terms: both products
/// of each pair are mapped, and each term of the one image is paired with
/// each term of the other.
pub open spec fn jordan_wigner_pairs<S: SpinSymbol>(
    terms: Seq<((Seq<(usize, S)>, Seq<(usize, S)>), CalculatorComplex)>,
) -> FermionPairs
    decreases terms.len(),
{
    if terms.len() == 0 {
        Seq::empty()
    } else {
        jordan_wigner_pairs(terms.drop_last()) + noise_rows(
            jordan_wigner_terms(terms.last().0.0),
            jordan_wigner_terms(terms.last().0.1),
            terms.last().1,
        )
    }
}

/// Whether a fermionic product is the one that a Hamiltonian keeps of the
/// product and its adjoint: its creators do not come after its
/// annihilators.
pub open spec fn kept(lists: ModeLists) -> bool {
    !lex_less(lists.annihilators, lists.creators)
}

/// The terms of an operator that a Hamiltonian keeps: of each product and
/// its adjoint the one that is kept, with its coefficient.
pub open spec fn hermitian_half(m: TermMap<ModeLists>) -> TermMap<ModeLists> {
    m.restrict(Set::new(|lists: ModeLists| kept(lists)))
}

/// Whether a Hamiltonian takes the terms that it keeps of an operator: the
/// coefficient of each kept product that is its own adjoint is real.
pub open spec fn hermitian_half_fits(m: TermMap<ModeLists>) -> bool {
    forall|lists: ModeLists| #[trigger]
        m.contains_key(lists) && kept(lists) ==> takes::<HermitianFermionProduct, SelfAdjoint>(
            lists,
            m[lists],
        )
}

/// The span of the list of one mode, and of the list of none.
pub proof fn lemma_small_spans(k: usize)
    ensures
        span(seq![k]) == k + 1,
        span(Seq::<usize>::empty()) == 0,
        fermion_span(no_modes()) == 0,
        fermion_span(creator(k)) == k + 1,
        fermion_span(annihilator(k)) == k + 1,
        fermion_span(number(k)) == k + 1,
{
    let one = seq![k];
    assert(one.drop_last() =~= Seq::<usize>::empty());
    assert(one.last() == k);
    assert(span(one.drop_last()) == 0);
    assert(span(one) == k + 1) by {
        reveal_with_fuel(span, 2);
    }
}

/// The terms of a product of rows that stay within a bound stay within it.
pub proof fn lemma_product_terms_within(left: FermionTerms, right: FermionTerms, bound: nat)
    requires
        terms_within::<FermionProduct>(left, bound),
        terms_within::<FermionProduct>(right, bound),
    ensures
        terms_within::<FermionProduct>(product_terms(left, right), bound),
{
    lemma_all_products_within::<FermionProduct>(left, right, bound);
    lemma_accumulate_terms_within::<FermionProduct>(
        Seq::empty(),
        all_products::<FermionProduct>(left, right),
        bound,
    );
}

/// The sum of two terms that stay within a bound stays within it.
pub proof fn lemma_two_terms_within(
    first: (ModeLists, CalculatorComplex),
    second: (ModeLists, CalculatorComplex),
    bound: nat,
)
    requires
        fermion_span(first.0) <= bound,
        fermion_span(second.0) <= bound,
    ensures
        terms_within::<FermionProduct>(two_terms(first, second), bound),
{
    let both = seq![first, second];
    assert forall|i: int| 0 <= i < both.len() implies fermion_span((#[trigger] both[i]).0)
        <= bound by {}
    assert(terms_within::<FermionProduct>(both, bound));
    lemma_accumulate_terms_within::<FermionProduct>(Seq::empty(), both, bound);
}

/// The identity reaches no mode.
pub proof fn lemma_unit_terms_within(bound: nat)
    ensures
        terms_within::<FermionProduct>(unit_terms(), bound),
{
    let one = seq![(no_modes(), coeff_of_ints(1, 0))];
    lemma_small_spans(0);
    assert forall|i: int| 0 <= i < one.len() implies fermion_span((#[trigger] one[i]).0)
        <= bound by {}
    assert(terms_within::<FermionProduct>(one, bound));
    lemma_accumulate_terms_within::<FermionProduct>(Seq::empty(), one, bound);
}

/// The string of a site reaches the modes below the site only.
pub proof fn lemma_string_terms_within(k: nat, bound: nat)
    requires
        k <= bound,
        k <= usize::MAX,
    ensures
        terms_within::<FermionProduct>(string_terms(k), bound),
    decreases k,
{
    if k == 0 {
        lemma_unit_terms_within(bound);
    } else {
        lemma_string_terms_within((k - 1) as nat, bound);
        let j = (k - 1) as usize;
        lemma_small_spans(j);
        lemma_two_terms_within(
            (no_modes(), coeff_of_ints(1, 0)),
            (number(j), coeff_of_ints(-2, 0)),
            bound,
        );
        lemma_product_terms_within(string_terms((k - 1) as nat), parity_terms(j), bound);
    }
}

/// The fermionic terms of a spin operator on a site reach the mode of the
/// site and the modes below it only.
pub proof fn lemma_site_terms_within<S: SpinSymbol>(k: usize, symbol: S, bound: nat)
    requires
        k < bound,
    ensures
        terms_within::<FermionProduct>(site_terms(k, symbol), bound),
{
    lemma_small_spans(k);
    if symbol == S::identity() {
        lemma_unit_terms_within(bound);
    } else if symbol.diagonal() {
        lemma_two_terms_within(
            (no_modes(), coeff_of_ints(1, 0)),
            (number(k), coeff_of_ints(-2, 0)),
            bound,
        );
    } else {
        let raising = symbol.raising();
        let lowering = symbol.lowering();
        lemma_string_terms_within(k as nat, bound);
        lemma_two_terms_within(
            (creator(k), coeff_of_ints(raising.0 as int, raising.1 as int)),
            (annihilator(k), coeff_of_ints(lowering.0 as int, lowering.1 as int)),
            bound,
        );
        lemma_product_terms_within(
            string_terms(k as nat),
            ladder_terms(k, raising, lowering),
            bound,
        );
    }
}

/// The Jordan-Wigner mapping keeps the number of sites: the fermionic terms
/// of a product of spin operators reach no mode beyond the sites of the
/// product.
pub proof fn lemma_jordan_wigner_terms_within<S: SpinSymbol>(items: Seq<(usize, S)>, bound: nat)
    requires
        site_span(items) <= bound,
    ensures
        terms_within::<FermionProduct>(jordan_wigner_terms(items), bound),
    decreases items.len(),
{
    if items.len() == 0 {
        lemma_unit_terms_within(bound);
    } else {
        let rest = items.drop_last();
        lemma_span_bounds(sites(items));
        lemma_span_bounds(sites(rest));
        assert(site_span(rest) <= site_span(items)) by {
            assert(sites(items).drop_last() =~= sites(rest));
        }
        lemma_jordan_wigner_terms_within(rest, bound);
        let (site, symbol) = items.last();
        assert(sites(items)[items.len() - 1] == site);
        assert(site < site_span(items));
        lemma_site_terms_within(site, symbol, bound);
        lemma_product_terms_within(jordan_wigner_terms(rest), site_terms(site, symbol), bound);
    }
}

/// The Jordan-Wigner mapping keeps the number of sites: the fermionic
/// operator of a spin operator reaches no mode beyond the sites of the
/// spin operator.
pub proof fn lemma_jordan_wigner_map_within<S: SpinSymbol>(
    terms: Seq<(Seq<(usize, S)>, CalculatorComplex)>,
    bound: nat,
)
    requires
        forall|i: int| 0 <= i < terms.len() ==> site_span((#[trigger] terms[i]).0) <= bound,
    ensures
        forall|key: ModeLists| #[trigger]
            jordan_wigner_map(terms).contains_key(key) ==> fermion_span(key) <= bound,
    decreases terms.len(),
{
    if terms.len() > 0 {
        let rest = terms.drop_last();
        assert forall|i: int| 0 <= i < rest.len() implies site_span((#[trigger] rest[i]).0)
            <= bound by {
            assert(rest[i] == terms[i]);
        }
        lemma_jordan_wigner_map_within(rest, bound);
        let image = jordan_wigner_terms(terms.last().0);
        assert(site_span(terms[terms.len() - 1].0) <= bound);
        lemma_jordan_wigner_terms_within(terms.last().0, bound);
        assert forall|key: ModeLists| #[trigger]
            jordan_wigner_map(terms).contains_key(key) implies fermion_span(key) <= bound by {
            if !jordan_wigner_map(rest).contains_key(key) {
                assert(terms_map(image).contains_key(key));
                let i = place_of(image, key);
                assert(image[i].0 == key);
            }
        }
    }
}

/// The products of the noise terms of two rows are products of the rows.
pub proof fn lemma_noise_rows_within(
    lefts: FermionTerms,
    rights: FermionTerms,
    value: CalculatorComplex,
    bound: nat,
)
    requires
        terms_within::<FermionProduct>(lefts, bound),
        terms_within::<FermionProduct>(rights, bound),
    ensures
        forall|i: int|
            0 <= i < noise_rows(lefts, rights, value).len() ==> fermion_span(
                (#[trigger] noise_rows(lefts, rights, value)[i]).0.0,
            ) <= bound && fermion_span(noise_rows(lefts, rights, value)[i].0.1) <= bound,
    decreases lefts.len(),
{
    if lefts.len() > 0 {
        let head = lefts.drop_last();
        assert forall|i: int| 0 <= i < head.len() implies fermion_span((#[trigger] head[i]).0)
            <= bound by {
            assert(head[i] == lefts[i]);
        }
        assert(terms_within::<FermionProduct>(head, bound));
        lemma_noise_rows_within(head, rights, value, bound);
        let before = noise_rows(head, rights, value);
        let row = noise_row(lefts.last(), rights, value);
        let all = noise_rows(lefts, rights, value);
        assert(fermion_span(lefts[lefts.len() - 1].0) <= bound);
        assert forall|i: int| 0 <= i < all.len() implies fermion_span((#[trigger] all[i]).0.0)
            <= bound && fermion_span(all[i].0.1) <= bound by {
            if i < before.len() {
                assert(all[i] == before[i]);
            } else {
                let j = i - before.len();
                assert(all[i] == row[j]);
                assert(fermion_span(rights[j].0) <= bound);
            }
        }
    }
}

/// The Jordan-Wigner mapping keeps the number of sites: the fermionic
/// noise terms of spin noise terms reach no mode beyond the sites of the
/// spin noise terms.
pub proof fn lemma_jordan_wigner_pairs_within<S: SpinSymbol>(
    terms: Seq<((Seq<(usize, S)>, Seq<(usize, S)>), CalculatorComplex)>,
    bound: nat,
)
    requires
        forall|i: int|
            0 <= i < terms.len() ==> site_span((#[trigger] terms[i]).0.0) <= bound && site_span(
                terms[i].0.1,
            ) <= bound,
    ensures
        forall|i: int|
            0 <= i < jordan_wigner_pairs(terms).len() ==> fermion_span(
                (#[trigger] jordan_wigner_pairs(terms)[i]).0.0,
            ) <= bound && fermion_span(jordan_wigner_pairs(terms)[i].0.1) <= bound,
    decreases terms.len(),
{
    if terms.len() > 0 {
        let rest = terms.drop_last();
        assert forall|i: int| 0 <= i < rest.len() implies site_span((#[trigger] rest[i]).0.0)
            <= bound && site_span(rest[i].0.1) <= bound by {
            assert(rest[i] == terms[i]);
        }
        lemma_jordan_wigner_pairs_within(rest, bound);
        let last = terms[terms.len() - 1];
        assert(site_span(last.0.0) <= bound && site_span(last.0.1) <= bound);
        lemma_jordan_wigner_terms_within(last.0.0, bound);
        lemma_jordan_wigner_terms_within(last.0.1, bound);
        let lefts = jordan_wigner_terms(last.0.0);
        let rights = jordan_wigner_terms(last.0.1);
        lemma_noise_rows_within(lefts, rights, last.1, bound);
        let before = jordan_wigner_pairs(rest);
        let rows = noise_rows(lefts, rights, last.1);
        let all = jordan_wigner_pairs(terms);
        assert forall|i: int| 0 <= i < all.len() implies fermion_span((#[trigger] all[i]).0.0)
            <= bound && fermion_span(all[i].0.1) <= bound by {
            if i < before.len() {
                assert(all[i] == before[i]);
            } else {
                assert(all[i] == rows[i - before.len()]);
            }
        }
    }
}

/// The index list of one mode.
fn one_mode(k: usize) -> (r: Vec<usize>)
    ensures
        r@ == seq![k],
{
    let mut r: Vec<usize> = Vec::new();
    r.push(k);
    r
}

/// The fermionic product with the given creators and annihilators, which
/// are at most one mode each.
fn small_product(creators: &Vec<usize>, annihilators: &Vec<usize>) -> (r: FermionProduct)
    requires
        creators@.len() <= 1,
        annihilators@.len() <= 1,
        forall|i: int| 0 <= i < creators@.len() ==> creators@[i] < usize::MAX,
        forall|i: int| 0 <= i < annihilators@.len() ==> annihilators@[i] < usize::MAX,
    ensures
        r@ == (ModeLists { creators: creators@, annihilators: annihilators@ }),
{
    FermionProduct::from_canonical(
        crate::modes::copy_list(creators.as_slice()),
        crate::modes::copy_list(annihilators.as_slice()),
    )
}

/// The operator with the two given terms.
fn two_term_operator(
    first: FermionProduct,
    first_re: i32,
    first_im: i32,
    second: FermionProduct,
    second_re: i32,
    second_im: i32,
) -> (r: FermionOperator)
    ensures
        r.terms() == two_terms(
            (first@, coeff_of_ints(first_re as int, first_im as int)),
            (second@, coeff_of_ints(second_re as int, second_im as int)),
        ),
{
    let mut r = FermionOperator::new();
    let ghost a = (first@, coeff_of_ints(first_re as int, first_im as int));
    let ghost b = (second@, coeff_of_ints(second_re as int, second_im as int));
    let ghost none = Seq::<(ModeLists, CalculatorComplex)>::empty();
    proof {
        let both = seq![a, b];
        let one = seq![a];
        assert(both.drop_last() =~= one);
        assert(both.last() == b);
        assert(one.drop_last() =~= none);
        assert(one.last() == a);
        assert(accumulate_terms(none, none) == none);
        assert(accumulate_terms(none, one) == crate::operator::terms_plus(none, a.0, a.1));
        assert(accumulate_terms(none, both) == crate::operator::terms_plus(
            accumulate_terms(none, one),
            b.0,
            b.1,
        ));
    }
    assert(r.terms() == none);
    let _ = r.add_operator_product(first, coeff_from_ints(first_re, first_im));
    assert(r.terms() == accumulate_terms(none, seq![a]));
    let _ = r.add_operator_product(second, coeff_from_ints(second_re, second_im));
    r
}

/// The identity as a fermionic operator.
fn unit_operator() -> (r: FermionOperator)
    ensures
        r.terms() == unit_terms(),
{
    let mut r = FermionOperator::new();
    let empty: Vec<usize> = Vec::new();
    let identity = small_product(&empty, &empty);
    let ghost none = Seq::<(ModeLists, CalculatorComplex)>::empty();
    proof {
        let a = (no_modes(), coeff_of_ints(1, 0));
        let one = seq![a];
        assert(one.drop_last() =~= none);
        assert(one.last() == a);
        assert(accumulate_terms(none, none) == none);
        assert(accumulate_terms(none, one) == crate::operator::terms_plus(none, a.0, a.1));
        assert(identity@ =~= no_modes());
    }
    assert(r.terms() == none);
    let _ = r.add_operator_product(identity, coeff_from_ints(1, 0));
    r
}

/// The operator `1 - 2 n_k`.
fn parity_operator(k: usize) -> (r: FermionOperator)
    requires
        k < usize::MAX,
    ensures
        r.terms() == parity_terms(k),
{
    let empty: Vec<usize> = Vec::new();
    let mode = one_mode(k);
    let identity = small_product(&empty, &empty);
    let count = small_product(&mode, &mode);
    assert(identity@ =~= no_modes());
    two_term_operator(identity, 1, 0, count, -2, 0)
}

/// The string of a site: the product of `1 - 2 n_j` for all modes below `k`.
fn string_operator(k: usize) -> (r: FermionOperator)
    ensures
        r.terms() == string_terms(k as nat),
{
    let mut r = unit_operator();
    let mut j: usize = 0;
    while j < k
        invariant
            j <= k,
            r.terms() == string_terms(j as nat),
        decreases k - j,
    {
        let factor = parity_operator(j);
        r = r.mul(&factor);
        j += 1;
    }
    r
}

/// The sum of `c_k` and `a_k`, each with its factor.
fn ladder_operator(k: usize, raising: (i32, i32), lowering: (i32, i32)) -> (r: FermionOperator)
    requires
        k < usize::MAX,
    ensures
        r.terms() == ladder_terms(k, raising, lowering),
{
    let empty: Vec<usize> = Vec::new();
    let mode = one_mode(k);
    let create = small_product(&mode, &empty);
    let annihilate = small_product(&empty, &mode);
    assert(create@ =~= creator(k));
    assert(annihilate@ =~= annihilator(k));
    two_term_operator(create, raising.0, raising.1, annihilate, lowering.0, lowering.1)
}

/// The fermionic operator of a spin operator on one site.
fn site_operator<S: SpinSymbol>(k: usize, symbol: S) -> (r: FermionOperator)
    requires
        k < usize::MAX,
    ensures
        r.terms() == site_terms(k, symbol),
{
    if symbol.symbol_is_identity() {
        unit_operator()
    } else if symbol.is_diagonal() {
        parity_operator(k)
    } else {
        let string = string_operator(k);
        let ladder = ladder_operator(k, symbol.raising_factor(), symbol.lowering_factor());
        string.mul(&ladder)
    }
}

/// The fermionic operator of a product of spin operators.
pub fn jordan_wigner_product<S: SpinSymbol>(product: &SiteProduct<S>) -> (r: FermionOperator)
    ensures
        r.terms() == jordan_wigner_terms(product@),
        r@ == terms_map(jordan_wigner_terms(product@)),
{
    let n = product.len();
    let mut r = unit_operator();
    let mut i: usize = 0;
    assert(product@.take(0) =~= Seq::<(usize, S)>::empty());
    while i < n
        invariant
            i <= n,
            n == product@.len(),
            site_canonical(product@),
            r.terms() == jordan_wigner_terms(product@.take(i as int)),
        decreases n - i,
    {
        proof {
            assert(product@.take(i + 1).drop_last() =~= product@.take(i as int));
            assert(product@.take(i + 1).last() == product@[i as int]);
        }
        let (site, symbol) = product.item(i);
        let factor = site_operator(site, symbol);
        r = r.mul(&factor);
        i += 1;
    }
    assert(product@.take(i as int) =~= product@);
    r
}

/// The fermionic operator of a spin operator.
pub fn jordan_wigner<S: SpinSymbol, R: CoefficientRule<SiteProduct<S>>>(
    operator: &Operator<SiteProduct<S>, R>,
) -> (r: FermionOperator)
    ensures
        r@ == jordan_wigner_map(operator.terms()),
{
    let n = operator.len();
    let mut r = FermionOperator::new();
    let mut i: usize = 0;
    assert(operator.terms().take(0) =~= Seq::empty());
    while i < n
        invariant
            i <= n,
            n == operator.terms().len(),
            r@ == jordan_wigner_map(operator.terms().take(i as int)),
        decreases n - i,
    {
        proof {
            assert(operator.terms().take(i + 1).drop_last() =~= operator.terms().take(i as int));
            assert(operator.terms().take(i + 1).last() == operator.terms()[i as int]);
        }
        let image = jordan_wigner_product(operator.key_at(i));
        let scaled = image.scale(crate::coefficient::coeff_clone(operator.value_at(i)));
        r = r.add(scaled);
        i += 1;
    }
    assert(operator.terms().take(i as int) =~= operator.terms());
    r
}

/// The fermionic noise operator of a spin noise operator.
///
/// Both products of each term are mapped. The noise terms of the two
/// images, times the coefficient of the term, are added up.
pub fn jordan_wigner_noise<S: SpinSymbol>(
    noise: &Operator<(SiteProduct<S>, SiteProduct<S>)>,
) -> (r: FermionLindbladNoiseOperator)
    ensures
        r@ == accumulate(Map::empty(), jordan_wigner_pairs(noise.terms())),
{
    let n = noise.len();
    let mut r = FermionLindbladNoiseOperator::new();
    let mut i: usize = 0;
    let ghost none = Map::<(ModeLists, ModeLists), CalculatorComplex>::empty();
    assert(noise.terms().take(0) =~= Seq::empty());
    assert(r@ =~= none);
    while i < n
        invariant
            i <= n,
            n == noise.terms().len(),
            none == Map::<(ModeLists, ModeLists), CalculatorComplex>::empty(),
            r@ == accumulate(none, jordan_wigner_pairs(noise.terms().take(i as int))),
        decreases n - i,
    {
        let pair = noise.key_at(i);
        let left = jordan_wigner_product(&pair.0);
        let right = jordan_wigner_product(&pair.1);
        proof {
            assert(noise.terms().take(i + 1).drop_last() =~= noise.terms().take(i as int));
            assert(noise.terms().take(i + 1).last() == noise.terms()[i as int]);
            lemma_accumulate_concat(
                none,
                jordan_wigner_pairs(noise.terms().take(i as int)),
                noise_rows(left.terms(), right.terms(), noise.terms()[i as int].1),
            );
        }
        r.add_noise_from_full_operators(&left, &right, noise.value_at(i));
        i += 1;
    }
    assert(noise.terms().take(i as int) =~= noise.terms());
    r
}

/// The fermionic noise system of a spin noise system, for as many modes as
/// the system declares spins.
pub fn jordan_wigner_noise_system<S: SpinSymbol>(
    system: &System<(SiteProduct<S>, SiteProduct<S>)>,
) -> (r: FermionLindbladNoiseSystem)
    ensures
        r@ == accumulate(Map::empty(), jordan_wigner_pairs(system.terms())),
        r.capacity() == system.capacity(),
{
    let operator = jordan_wigner_noise(system.operator());
    let number = system.declared_number();
    let _ = system.operator().len();
    proof {
        match number {
            Some(n) => {
                let terms = system.terms();
                assert forall|i: int| 0 <= i < terms.len() implies site_span(
                    (#[trigger] terms[i]).0.0,
                ) <= n && site_span(terms[i].0.1) <= n by {
                    lemma_terms_map_at(terms, i);
                    assert(<(SiteProduct<S>, SiteProduct<S>)>::span(terms[i].0) <= n);
                }
                lemma_jordan_wigner_pairs_within(terms, n as nat);
                let pairs = jordan_wigner_pairs(terms);
                lemma_accumulate_keys(Map::empty(), pairs);
                assert forall|key: (ModeLists, ModeLists)|
                    operator@.contains_key(key) implies <(FermionProduct, FermionProduct)>::span(
                    key,
                ) <= n by {
                    assert(has_key(pairs, key));
                    let i = place_of(pairs, key);
                    assert(pairs[i].0 == key);
                }
            },
            None => {},
        }
    }
    // the image reaches no mode beyond the declared number, so this succeeds
    match FermionLindbladNoiseSystem::from_operator(operator, number) {
        Ok(image) => image,
        Err(_) => FermionLindbladNoiseSystem::new(number),
    }
}

/// The Hamiltonian that holds the kept half of a fermionic operator.
///
/// Of each product and its adjoint a Hamiltonian holds one, which stands
/// for both. The terms with such products are taken over with their
/// coefficients, and the others are left out: in a self-adjoint operator
/// they follow from the ones that are kept. Fails with
/// `NonHermitianOperator` where a kept product is its own adjoint and its
/// coefficient is not real.
pub fn fermion_hamiltonian(operator: &FermionOperator) -> (r: Result<
    FermionHamiltonian,
    StruqtureError,
>)
    ensures
        match r {
            Ok(h) => hermitian_half_fits(operator@) && h@ == hermitian_half(operator@),
            Err(e) => !hermitian_half_fits(operator@) && e == StruqtureError::NonHermitianOperator,
        },
{
    let n = operator.len();
    let mut h = FermionHamiltonian::new();
    let mut i: usize = 0;
    let ghost terms = operator.terms();
    assert(terms.take(0) =~= Seq::empty());
    assert(h@ =~= hermitian_half(terms_map(terms.take(0))));
    while i < n
        invariant
            i <= n,
            n == terms.len(),
            terms == operator.terms(),
            distinct_keys(terms),
            forall|k: int| 0 <= k < terms.len() ==> !coeff_vanishes((#[trigger] terms[k]).1),
            h@ == hermitian_half(terms_map(terms.take(i as int))),
            forall|k: int|
                0 <= k < i && kept((#[trigger] terms[k]).0) ==> takes::<
                    HermitianFermionProduct,
                    SelfAdjoint,
                >(terms[k].0, terms[k].1),
        decreases n - i,
    {
        let key = operator.key_at(i);
        proof {
            lemma_terms_map_take(terms, i as int);
            lemma_terms_map_at(terms, i as int);
        }
        let ghost before = terms_map(terms.take(i as int));
        let ghost lists = terms[i as int].0;
        let ghost value = terms[i as int].1;
        match HermitianFermionProduct::new(key.creators().as_slice(), key.annihilators().as_slice()) {
            Ok(product) => {
                assert(product@ == lists);
                assert(kept(lists));
                match h.set(product, coeff_clone(operator.value_at(i))) {
                    Ok(_) => {
                        assert(h@ =~= hermitian_half(before.insert(lists, value)));
                    },
                    Err(e) => {
                        assert(operator@.contains_key(lists) && kept(lists));
                        return Err(e);
                    },
                }
            },
            Err(_) => {
                assert(!kept(lists));
                assert(h@ =~= hermitian_half(before.insert(lists, value)));
            },
        }
        i += 1;
    }
    proof {
        assert(terms.take(i as int) =~= terms);
        assert forall|lists: ModeLists| #[trigger]
            operator@.contains_key(lists) && kept(lists) implies takes::<
            HermitianFermionProduct,
            SelfAdjoint,
        >(lists, operator@[lists]) by {
            let k = place_of(terms, lists);
            lemma_terms_map_at(terms, k);
        }
    }
    Ok(h)
}

/// The fermionic Hamiltonian of a spin Hamiltonian: the kept half of its
/// fermionic operator.
///
/// Fails with `NonHermitianOperator` where a product of the image is its
/// own adjoint and its coefficient is not real.
pub fn jordan_wigner_hamiltonian(operator: &SpinHamiltonian) -> (r: Result<
    FermionHamiltonian,
    StruqtureError,
>)
    ensures
        match r {
            Ok(h) => hermitian_half_fits(jordan_wigner_map(operator.terms())) && h@
                == hermitian_half(jordan_wigner_map(operator.terms())),
            Err(e) => !hermitian_half_fits(jordan_wigner_map(operator.terms())) && e
                == StruqtureError::NonHermitianOperator,
        },
{
    let image = jordan_wigner(operator);
    fermion_hamiltonian(&image)
}

/// The fermionic open system of a spin open system, for as many modes as
/// the system declares spins: the image of the Hamiltonian together with
/// the image of the noise.
///
/// Fails with `NonHermitianOperator` where a product of the image of the
/// Hamiltonian is its own adjoint and its coefficient is not real.
pub fn jordan_wigner_open_system(open: &SpinLindbladOpenSystem) -> (r: Result<
    FermionLindbladOpenSystem,
    StruqtureError,
>)
    ensures
        match r {
            Ok(image) => hermitian_half_fits(jordan_wigner_map(open.system_rows()))
                && image.system_terms() == hermitian_half(jordan_wigner_map(open.system_rows()))
                && image.noise_terms() == accumulate(
                Map::empty(),
                jordan_wigner_pairs(open.noise_rows()),
            ) && image.capacity() == open.capacity(),
            Err(e) => !hermitian_half_fits(jordan_wigner_map(open.system_rows())) && e
                == StruqtureError::NonHermitianOperator,
        },
{
    let number = open.system().declared_number();
    let hamiltonian = match jordan_wigner_hamiltonian(open.system().operator()) {
        Ok(h) => h,
        Err(e) => {
            return Err(e);
        },
    };
    let noise = jordan_wigner_noise_system(open.noise());
    let _ = open.system().operator().len();
    let _ = noise.operator();
    proof {
        match number {
            Some(n) => {
                let terms = open.system_rows();
                assert forall|i: int| 0 <= i < terms.len() implies site_span(
                    (#[trigger] terms[i]).0,
                ) <= n by {
                    lemma_terms_map_at(terms, i);
                }
                lemma_jordan_wigner_map_within(terms, n as nat);
                assert forall|key: ModeLists|
                    hamiltonian@.contains_key(key) implies HermitianFermionProduct::span(key)
                    <= n by {
                    assert(jordan_wigner_map(terms).contains_key(key));
                }
            },
            None => {},
        }
        assert(within_capacity::<HermitianFermionProduct>(hamiltonian@, number));
    }
    // the images reach no mode beyond the declared number, so both succeed
    let system = match FermionHamiltonianSystem::from_operator(hamiltonian, number) {
        Ok(system) => system,
        Err(e) => {
            return Err(e);
        },
    };
    let _ = system.operator();
    assert(common_number(system.capacity(), noise.capacity()) == Some(number));
    FermionLindbladOpenSystem::group(system, noise)
}

/// The fermionic system of a spin system, for as many modes as the system
/// declares spins.
pub fn jordan_wigner_system<S: SpinSymbol, R: CoefficientRule<SiteProduct<S>>>(
    system: &System<SiteProduct<S>, R>,
) -> (r: FermionSystem)
    ensures
        r@ == jordan_wigner_map(system.terms()),
        r.capacity() == system.capacity(),
{
    let operator = jordan_wigner(system.operator());
    let number = system.declared_number();
    let _ = system.operator().len();
    proof {
        match number {
            Some(n) => {
                let terms = system.terms();
                assert forall|i: int| 0 <= i < terms.len() implies site_span(
                    (#[trigger] terms[i]).0,
                ) <= n by {
                    lemma_terms_map_at(terms, i);
                }
                lemma_jordan_wigner_map_within(terms, n as nat);
            },
            None => {},
        }
    }
    // the image reaches no mode beyond the declared number, so this succeeds
    match FermionSystem::from_operator(operator, number) {
        Ok(image) => image,
        Err(_) => FermionSystem::new(number),
    }
}

} // verus!
