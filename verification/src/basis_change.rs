//! Changes of the operator basis of a site.
//!
//! An operator of one basis is a sum of operators of another, each with a
//! factor: the raising operator is `(X + iY) / 2`, and X is the sum of the
//! raising and the lowering operator. A product of operators of one basis
//! is then a sum of products of the other, one for each choice of a summand
//! on each site.

use crate::coefficient::{
    coeff_from_phase, coeff_half, coeff_mul, coeff_of_phase, coeff_one_half, coeff_product,
};
use crate::operator::{accumulate, lemma_accumulate_push, CoefficientRule, Operator};
use crate::sign::Phase;
use crate::site_product::{site_canonical, site_span, sites, SiteProduct, SiteSymbol};
use qoqo_calculator::CalculatorComplex;
use vstd::prelude::*;

verus! {

/// A factor that a change of basis gives a term: a fourth root of unity
/// divided by a power of two.
#[derive(Clone, Copy, Debug, PartialEq, Eq, Structural)]
pub struct Prefactor {
    /// The fourth root of unity.
    pub phase: Phase,
    /// How often the factor is halved.
    pub halvings: usize,
}

impl Prefactor {
    /// The factor one.
    pub open spec fn one() -> Prefactor {
        Prefactor { phase: Phase::One, halvings: 0 }
    }

    /// The product of two factors.
    pub open spec fn product(self, other: Prefactor) -> Prefactor {
        Prefactor {
            phase: Phase::of_exponent(self.phase.exponent() + other.phase.exponent()),
            halvings: (self.halvings + other.halvings) as usize,
        }
    }

    /// The product of two factors.
    pub fn times(self, other: Prefactor) -> (r: Prefactor)
        requires
            self.halvings + other.halvings <= usize::MAX,
        ensures
            r == self.product(other),
    {
        Prefactor { phase: self.phase.times(other.phase), halvings: self.halvings + other.halvings }
    }
}

/// A coefficient halved `halvings` times.
pub open spec fn halved(c: CalculatorComplex, halvings: nat) -> CalculatorComplex
    decreases halvings,
{
    if halvings == 0 {
        c
    } else {
        coeff_product(halved(c, (halvings - 1) as nat), coeff_half())
    }
}

/// The coefficient that stands for a factor.
pub open spec fn prefactor_coefficient(p: Prefactor) -> CalculatorComplex {
    halved(coeff_of_phase(p.phase), p.halvings as nat)
}

/// The coefficient that stands for a factor.
pub fn coeff_from_prefactor(p: Prefactor) -> (r: CalculatorComplex)
    ensures
        r == prefactor_coefficient(p),
{
    let mut r = coeff_from_phase(p.phase);
    let half = coeff_one_half();
    let mut k: usize = 0;
    while k < p.halvings
        invariant
            k <= p.halvings,
            half == coeff_half(),
            r == halved(coeff_of_phase(p.phase), k as nat),
        decreases p.halvings - k,
    {
        r = coeff_mul(&r, &half);
        k += 1;
    }
    r
}

/// An operator basis whose operators are sums of operators of the basis `B`.
pub trait SplitsInto<B: SiteSymbol>: SiteSymbol {
    /// The operators of `B`, each with its factor, that sum up to the operator.
    spec fn split(self) -> Seq<(B, Prefactor)>;

    /// An operator that is not the identity is a sum of operators that are
    /// not the identity, none of them halved more than once.
    proof fn lemma_split(s: Self)
        ensures
            s != Self::identity() ==> forall|j: int|
                0 <= j < s.split().len() ==> (#[trigger] s.split()[j]).0 != B::identity() && s.split()[j].1.halvings
                    <= 1,
    ;

    /// The operators of `B`, each with its factor, that sum up to the operator.
    fn symbol_split(&self) -> (r: Vec<(B, Prefactor)>)
        ensures
            r@ == self.split(),
    ;
}

/// A term of the expansion of a product: a product in the new basis with
/// its factor.
pub type ExpandedTerm<B> = (Seq<(usize, B)>, Prefactor);

/// The terms that come of one term when a site is added to it: one for each
/// summand of the operator of the site.
pub open spec fn alternatives<B: SiteSymbol>(
    term: ExpandedTerm<B>,
    site: usize,
    summands: Seq<(B, Prefactor)>,
) -> Seq<ExpandedTerm<B>> {
    Seq::new(
        summands.len(),
        |j: int| (term.0.push((site, summands[j].0)), term.1.product(summands[j].1)),
    )
}

/// The terms that come of a row of terms when a site is added to each.
pub open spec fn spread<B: SiteSymbol>(
    terms: Seq<ExpandedTerm<B>>,
    site: usize,
    summands: Seq<(B, Prefactor)>,
) -> Seq<ExpandedTerm<B>>
    decreases terms.len(),
{
    if terms.len() == 0 {
        Seq::empty()
    } else {
        spread(terms.drop_last(), site, summands) + alternatives(terms.last(), site, summands)
    }
}

/// The expansion of a product in the basis `B`: the sites are taken in
/// ascending order, and each multiplies the terms so far by the summands of
/// its operator.
pub open spec fn expansion<A: SplitsInto<B>, B: SiteSymbol>(items: Seq<(usize, A)>) -> Seq<
    ExpandedTerm<B>,
>
    decreases items.len(),
{
    if items.len() == 0 {
        seq![(Seq::<(usize, B)>::empty(), Prefactor::one())]
    } else {
        spread(expansion::<A, B>(items.drop_last()), items.last().0, items.last().1.split())
    }
}

/// Whether a term of an expansion has the sites of the first `count`
/// entries of a product, operators that are not the identity, and a factor
/// halved at most once for each site.
pub open spec fn expands<A: SiteSymbol, B: SiteSymbol>(
    term: ExpandedTerm<B>,
    items: Seq<(usize, A)>,
) -> bool {
    &&& sites(term.0) == sites(items)
    &&& term.1.halvings <= items.len()
    &&& forall|k: int| 0 <= k < term.0.len() ==> (#[trigger] term.0[k]).1 != B::identity()
}

/// Every term of the expansion of a canonical product has the sites of the
/// product and is canonical.
pub proof fn lemma_expansion<A: SplitsInto<B>, B: SiteSymbol>(items: Seq<(usize, A)>)
    requires
        site_canonical(items),
    ensures
        forall|i: int|
            0 <= i < expansion::<A, B>(items).len() ==> expands(
                #[trigger] expansion::<A, B>(items)[i],
                items,
            ) && site_canonical(expansion::<A, B>(items)[i].0) && site_span(
                expansion::<A, B>(items)[i].0,
            ) == site_span(items),
    decreases items.len(),
{
    let all = expansion::<A, B>(items);
    if items.len() == 0 {
        assert forall|i: int| 0 <= i < all.len() implies expands(#[trigger] all[i], items)
            && site_canonical(all[i].0) && site_span(all[i].0) == site_span(items) by {
            assert(sites(all[i].0) =~= sites(items));
        }
    } else {
        let rest = items.drop_last();
        assert(site_canonical(rest)) by {
            assert forall|i: int, j: int| 0 <= i < j < rest.len() implies (#[trigger] rest[i]).0 < (
            #[trigger] rest[j]).0 by {
                assert(rest[i] == items[i] && rest[j] == items[j]);
            }
            assert forall|i: int| 0 <= i < rest.len() implies (#[trigger] rest[i]).1
                != A::identity() && rest[i].0 < usize::MAX by {
                assert(rest[i] == items[i]);
            }
        }
        lemma_expansion::<A, B>(rest);
        let (site, symbol) = items.last();
        assert(items[items.len() - 1] == (site, symbol));
        A::lemma_split(symbol);
        lemma_spread::<A, B>(expansion::<A, B>(rest), items);
    }
}

/// The same for the terms that come of a row of terms of a shorter product
/// when the last site is added.
pub proof fn lemma_spread<A: SplitsInto<B>, B: SiteSymbol>(
    terms: Seq<ExpandedTerm<B>>,
    items: Seq<(usize, A)>,
)
    requires
        items.len() > 0,
        site_canonical(items),
        forall|i: int|
            0 <= i < terms.len() ==> expands(#[trigger] terms[i], items.drop_last())
                && site_canonical(terms[i].0),
        forall|j: int|
            0 <= j < items.last().1.split().len() ==> (#[trigger] items.last().1.split()[j]).0
                != B::identity() && items.last().1.split()[j].1.halvings <= 1,
    ensures
        forall|i: int|
            0 <= i < spread(terms, items.last().0, items.last().1.split()).len() ==> expands(
                #[trigger] spread(terms, items.last().0, items.last().1.split())[i],
                items,
            ) && site_canonical(spread(terms, items.last().0, items.last().1.split())[i].0)
                && site_span(spread(terms, items.last().0, items.last().1.split())[i].0)
                == site_span(items),
    decreases terms.len(),
{
    let site = items.last().0;
    let summands = items.last().1.split();
    let all = spread(terms, site, summands);
    if terms.len() > 0 {
        let head = spread(terms.drop_last(), site, summands);
        assert forall|i: int| 0 <= i < terms.drop_last().len() implies expands(
            #[trigger] terms.drop_last()[i],
            items.drop_last(),
        ) && site_canonical(terms.drop_last()[i].0) by {
            assert(terms.drop_last()[i] == terms[i]);
        }
        lemma_spread::<A, B>(terms.drop_last(), items);
        let last = terms.last();
        assert(terms[terms.len() - 1] == last);
        let tail = alternatives(last, site, summands);
        assert forall|i: int| 0 <= i < all.len() implies expands(#[trigger] all[i], items)
            && site_canonical(all[i].0) && site_span(all[i].0) == site_span(items) by {
            if i < head.len() {
                assert(all[i] == head[i]);
            } else {
                let j = i - head.len();
                assert(all[i] == tail[j]);
                let grown = last.0.push((site, summands[j].0));
                assert(all[i].0 == grown);
                assert(expands(last, items.drop_last()));
                assert(sites(last.0).len() == last.0.len());
                assert(sites(items.drop_last()).len() == items.len() - 1);
                assert(last.0.len() == items.len() - 1);
                assert(grown.len() == items.len());
                assert(sites(grown) =~= sites(items)) by {
                    assert forall|k: int| 0 <= k < items.len() implies sites(grown)[k] == sites(
                        items,
                    )[k] by {
                        if k < items.len() - 1 {
                            assert(sites(last.0)[k] == sites(items.drop_last())[k]);
                            assert(grown[k] == last.0[k]);
                            assert(items.drop_last()[k] == items[k]);
                        } else {
                            assert(grown[k] == (site, summands[j].0));
                        }
                    }
                }
                assert forall|a: int, b: int| 0 <= a < b < grown.len() implies (#[trigger] grown[a]).0
                    < (#[trigger] grown[b]).0 by {
                    assert(sites(grown)[a] == sites(items)[a]);
                    assert(sites(grown)[b] == sites(items)[b]);
                    assert(items[a].0 < items[b].0);
                }
                assert forall|k: int| 0 <= k < grown.len() implies (#[trigger] grown[k]).1
                    != B::identity() && grown[k].0 < usize::MAX by {
                    assert(sites(grown)[k] == sites(items)[k]);
                    assert(items[k].0 < usize::MAX);
                    if k < last.0.len() {
                        assert(grown[k] == last.0[k]);
                    }
                }
            }
        }
    }
}

/// The expansion of a product in the basis `B`.
pub fn expand<A: SplitsInto<B>, B: SiteSymbol>(product: &SiteProduct<A>) -> (r: Vec<
    (SiteProduct<B>, Prefactor),
>)
    ensures
        r@.len() == expansion::<A, B>(product@).len(),
        forall|i: int|
            0 <= i < r@.len() ==> (#[trigger] r@[i]).0@ == expansion::<A, B>(product@)[i].0 && r@[i].1
                == expansion::<A, B>(product@)[i].1,
{
    let n = product.len();
    let mut terms: Vec<(Vec<(usize, B)>, Prefactor)> = Vec::new();
    terms.push((Vec::new(), Prefactor { phase: Phase::One, halvings: 0 }));
    let mut i: usize = 0;
    assert(product@.take(0) =~= Seq::<(usize, A)>::empty());
    while i < n
        invariant
            i <= n,
            n == product@.len(),
            site_canonical(product@),
            terms@.len() == expansion::<A, B>(product@.take(i as int)).len(),
            forall|k: int|
                0 <= k < terms@.len() ==> (#[trigger] terms@[k]).0@ == expansion::<A, B>(
                    product@.take(i as int),
                )[k].0 && terms@[k].1 == expansion::<A, B>(product@.take(i as int))[k].1,
        decreases n - i,
    {
        let ghost before = expansion::<A, B>(product@.take(i as int));
        let ghost items = product@.take(i + 1);
        proof {
            assert(items.drop_last() =~= product@.take(i as int));
            assert(items.last() == product@[i as int]);
            assert(site_canonical(product@.take(i as int))) by {
                let head = product@.take(i as int);
                assert forall|a: int, b: int| 0 <= a < b < head.len() implies (#[trigger] head[a]).0
                    < (#[trigger] head[b]).0 by {
                    assert(head[a] == product@[a] && head[b] == product@[b]);
                }
                assert forall|a: int| 0 <= a < head.len() implies (#[trigger] head[a]).1
                    != A::identity() && head[a].0 < usize::MAX by {
                    assert(head[a] == product@[a]);
                }
            }
            lemma_expansion::<A, B>(product@.take(i as int));
            A::lemma_split(product@[i as int].1);
        }
        let (site, symbol) = product.item(i);
        let summands = symbol.symbol_split();
        let mut next: Vec<(Vec<(usize, B)>, Prefactor)> = Vec::new();
        let mut t: usize = 0;
        assert(before.take(0) =~= Seq::<ExpandedTerm<B>>::empty());
        while t < terms.len()
            invariant
                t <= terms.len(),
                i < n,
                n == product@.len(),
                summands@ == symbol.split(),
                symbol != A::identity(),
                forall|j: int|
                    0 <= j < symbol.split().len() ==> (#[trigger] symbol.split()[j]).1.halvings <= 1,
                terms@.len() == before.len(),
                forall|k: int|
                    0 <= k < terms@.len() ==> (#[trigger] terms@[k]).0@ == before[k].0 && terms@[k].1
                        == before[k].1,
                forall|k: int| 0 <= k < before.len() ==> (#[trigger] before[k]).1.halvings <= i,
                next@.len() == spread(before.take(t as int), site, symbol.split()).len(),
                forall|k: int|
                    0 <= k < next@.len() ==> (#[trigger] next@[k]).0@ == spread(
                        before.take(t as int),
                        site,
                        symbol.split(),
                    )[k].0 && next@[k].1 == spread(before.take(t as int), site, symbol.split())[k].1,
            decreases terms.len() - t,
        {
            let ghost head = spread(before.take(t as int), site, symbol.split());
            let ghost tail = alternatives(before[t as int], site, symbol.split());
            proof {
                assert(before.take(t + 1).drop_last() =~= before.take(t as int));
                assert(before.take(t + 1).last() == before[t as int]);
            }
            let mut j: usize = 0;
            while j < summands.len()
                invariant
                    j <= summands.len(),
                    t < terms.len(),
                    summands@ == symbol.split(),
                    terms@[t as int].0@ == before[t as int].0,
                    terms@[t as int].1 == before[t as int].1,
                    before[t as int].1.halvings <= i,
                    i < n,
                    forall|m: int|
                        0 <= m < symbol.split().len() ==> (#[trigger] symbol.split()[m]).1.halvings
                            <= 1,
                    tail == alternatives(before[t as int], site, symbol.split()),
                    next@.len() == head.len() + j,
                    forall|k: int|
                        0 <= k < head.len() ==> (#[trigger] next@[k]).0@ == head[k].0 && next@[k].1
                            == head[k].1,
                    forall|k: int|
                        0 <= k < j ==> (#[trigger] next@[head.len() + k]).0@ == tail[k].0
                            && next@[head.len() + k].1 == tail[k].1,
                decreases summands.len() - j,
            {
                let mut grown = copy_entries(&terms[t].0);
                grown.push((site, summands[j].0));
                assert(summands@[j as int].1.halvings <= 1);
                let factor = terms[t].1.times(summands[j].1);
                next.push((grown, factor));
                j += 1;
            }
            proof {
                let after = spread(before.take(t + 1), site, symbol.split());
                assert(after =~= head + tail);
                assert forall|k: int| 0 <= k < next@.len() implies (#[trigger] next@[k]).0@
                    == after[k].0 && next@[k].1 == after[k].1 by {
                    if k >= head.len() {
                        let m = k - head.len();
                        assert(next@[head.len() + m].0@ == tail[m].0);
                    }
                }
            }
            t += 1;
        }
        proof {
            assert(before.take(t as int) =~= before);
        }
        terms = next;
        i += 1;
    }
    proof {
        assert(product@.take(i as int) =~= product@);
        lemma_expansion::<A, B>(product@);
    }
    let mut r: Vec<(SiteProduct<B>, Prefactor)> = Vec::new();
    let mut k: usize = 0;
    while k < terms.len()
        invariant
            k <= terms.len(),
            terms@.len() == expansion::<A, B>(product@).len(),
            forall|m: int|
                0 <= m < terms@.len() ==> (#[trigger] terms@[m]).0@ == expansion::<A, B>(product@)[m].0
                    && terms@[m].1 == expansion::<A, B>(product@)[m].1,
            forall|m: int|
                0 <= m < expansion::<A, B>(product@).len() ==> site_canonical(
                    (#[trigger] expansion::<A, B>(product@)[m]).0,
                ),
            r@.len() == k,
            forall|m: int|
                0 <= m < k ==> (#[trigger] r@[m]).0@ == expansion::<A, B>(product@)[m].0 && r@[m].1
                    == expansion::<A, B>(product@)[m].1,
        decreases terms.len() - k,
    {
        let entries = copy_entries(&terms[k].0);
        assert(site_canonical(expansion::<A, B>(product@)[k as int].0));
        r.push((SiteProduct::from_canonical(entries), terms[k].1));
        k += 1;
    }
    r
}

/// A copy of a row of entries.
pub fn copy_entries<B: SiteSymbol>(items: &Vec<(usize, B)>) -> (r: Vec<(usize, B)>)
    ensures
        r@ == items@,
{
    let mut r: Vec<(usize, B)> = Vec::new();
    let mut i: usize = 0;
    while i < items.len()
        invariant
            i <= items.len(),
            r@ =~= items@.take(i as int),
        decreases items.len() - i,
    {
        r.push(items[i]);
        i += 1;
    }
    assert(items@.take(i as int) =~= items@);
    r
}

/// The terms that one term of an operator becomes in the basis `B`: each
/// term of the expansion of its product, with the coefficient times the
/// factor of that term.
pub open spec fn converted_term<A: SplitsInto<B>, B: SiteSymbol>(
    key: Seq<(usize, A)>,
    value: CalculatorComplex,
) -> Seq<(Seq<(usize, B)>, CalculatorComplex)> {
    Seq::new(
        expansion::<A, B>(key).len(),
        |i: int|
            (
                expansion::<A, B>(key)[i].0,
                coeff_product(value, prefactor_coefficient(expansion::<A, B>(key)[i].1)),
            ),
    )
}

/// The terms that a row of terms becomes in the basis `B`.
pub open spec fn converted_terms<A: SplitsInto<B>, B: SiteSymbol>(
    terms: Seq<(Seq<(usize, A)>, CalculatorComplex)>,
) -> Seq<(Seq<(usize, B)>, CalculatorComplex)>
    decreases terms.len(),
{
    if terms.len() == 0 {
        Seq::empty()
    } else {
        converted_terms::<A, B>(terms.drop_last()) + converted_term::<A, B>(
            terms.last().0,
            terms.last().1,
        )
    }
}

/// The pairs of one product with each product of a row, each with the
/// coefficient times the factors of both.
pub open spec fn pair_row<B: SiteSymbol>(
    left: ExpandedTerm<B>,
    rights: Seq<ExpandedTerm<B>>,
    value: CalculatorComplex,
) -> Seq<((Seq<(usize, B)>, Seq<(usize, B)>), CalculatorComplex)> {
    Seq::new(
        rights.len(),
        |j: int|
            (
                (left.0, rights[j].0),
                coeff_product(
                    coeff_product(value, prefactor_coefficient(left.1)),
                    prefactor_coefficient(rights[j].1),
                ),
            ),
    )
}

/// The pairs of each product of one row with each product of another, the
/// first row outermost.
pub open spec fn pair_rows<B: SiteSymbol>(
    lefts: Seq<ExpandedTerm<B>>,
    rights: Seq<ExpandedTerm<B>>,
    value: CalculatorComplex,
) -> Seq<((Seq<(usize, B)>, Seq<(usize, B)>), CalculatorComplex)>
    decreases lefts.len(),
{
    if lefts.len() == 0 {
        Seq::empty()
    } else {
        pair_rows(lefts.drop_last(), rights, value) + pair_row(lefts.last(), rights, value)
    }
}

/// The noise terms that a row of noise terms becomes in the basis `B`: both
/// products of each pair are expanded.
pub open spec fn converted_pairs<A: SplitsInto<B>, B: SiteSymbol>(
    terms: Seq<((Seq<(usize, A)>, Seq<(usize, A)>), CalculatorComplex)>,
) -> Seq<((Seq<(usize, B)>, Seq<(usize, B)>), CalculatorComplex)>
    decreases terms.len(),
{
    if terms.len() == 0 {
        Seq::empty()
    } else {
        converted_pairs::<A, B>(terms.drop_last()) + pair_rows(
            expansion::<A, B>(terms.last().0.0),
            expansion::<A, B>(terms.last().0.1),
            terms.last().1,
        )
    }
}

/// An operator in the basis `B`: each term is expanded, and the terms that
/// come of it are added up in that order.
pub fn convert_operator<A: SplitsInto<B>, B: SiteSymbol, R: CoefficientRule<SiteProduct<A>>>(
    operator: &Operator<SiteProduct<A>, R>,
) -> (r: Operator<SiteProduct<B>>)
    ensures
        r@ == accumulate(Map::empty(), converted_terms::<A, B>(operator.terms())),
{
    let mut r: Operator<SiteProduct<B>> = Operator::new();
    let n = operator.len();
    let mut i: usize = 0;
    assert(operator.terms().take(0) =~= Seq::empty());
    while i < n
        invariant
            i <= n,
            n == operator.terms().len(),
            r@ == accumulate(Map::empty(), converted_terms::<A, B>(operator.terms().take(i as int))),
        decreases n - i,
    {
        let ghost done = converted_terms::<A, B>(operator.terms().take(i as int));
        let ghost key = operator.terms()[i as int].0;
        let ghost value = operator.terms()[i as int].1;
        let ghost new_terms = converted_term::<A, B>(key, value);
        let expanded = expand::<A, B>(operator.key_at(i));
        let mut t: usize = 0;
        assert(done + new_terms.take(0) =~= done);
        while t < expanded.len()
            invariant
                t <= expanded.len(),
                i < n,
                n == operator.terms().len(),
                key == operator.terms()[i as int].0,
                value == operator.terms()[i as int].1,
                new_terms == converted_term::<A, B>(key, value),
                expanded@.len() == expansion::<A, B>(key).len(),
                forall|k: int|
                    0 <= k < expanded@.len() ==> (#[trigger] expanded@[k]).0@ == expansion::<A, B>(
                        key,
                    )[k].0 && expanded@[k].1 == expansion::<A, B>(key)[k].1,
                r@ == accumulate(Map::empty(), done + new_terms.take(t as int)),
            decreases expanded.len() - t,
        {
            proof {
                lemma_accumulate_push(
                    Map::empty(),
                    done + new_terms.take(t as int),
                    new_terms[t as int].0,
                    new_terms[t as int].1,
                );
                assert((done + new_terms.take(t as int)).push(new_terms[t as int]) =~= done
                    + new_terms.take(t + 1));
            }
            let factor = coeff_from_prefactor(expanded[t].1);
            let coefficient = coeff_mul(operator.value_at(i), &factor);
            let _ = r.add_operator_product(expanded[t].0.clone(), coefficient);
            t += 1;
        }
        proof {
            assert(new_terms.take(t as int) =~= new_terms);
            assert(operator.terms().take(i + 1).drop_last() =~= operator.terms().take(i as int));
        }
        i += 1;
    }
    assert(operator.terms().take(i as int) =~= operator.terms());
    r
}

/// A noise operator in the basis `B`: both products of each term are
/// expanded, and the terms that come of it are added up in that order.
pub fn convert_noise_operator<A: SplitsInto<B>, B: SiteSymbol>(
    operator: &Operator<(SiteProduct<A>, SiteProduct<A>)>,
) -> (r: Operator<(SiteProduct<B>, SiteProduct<B>)>)
    ensures
        r@ == accumulate(Map::empty(), converted_pairs::<A, B>(operator.terms())),
{
    let mut r: Operator<(SiteProduct<B>, SiteProduct<B>)> = Operator::new();
    let n = operator.len();
    let mut i: usize = 0;
    assert(operator.terms().take(0) =~= Seq::empty());
    while i < n
        invariant
            i <= n,
            n == operator.terms().len(),
            r@ == accumulate(Map::empty(), converted_pairs::<A, B>(operator.terms().take(i as int))),
        decreases n - i,
    {
        let ghost done = converted_pairs::<A, B>(operator.terms().take(i as int));
        let ghost key = operator.terms()[i as int].0;
        let ghost value = operator.terms()[i as int].1;
        let ghost lefts = expansion::<A, B>(key.0);
        let ghost rights = expansion::<A, B>(key.1);
        let pair = operator.key_at(i);
        let left_terms = expand::<A, B>(&pair.0);
        let right_terms = expand::<A, B>(&pair.1);
        let mut a: usize = 0;
        assert(lefts.take(0) =~= Seq::empty());
        assert(done + pair_rows(lefts.take(0), rights, value) =~= done);
        while a < left_terms.len()
            invariant
                a <= left_terms.len(),
                i < n,
                n == operator.terms().len(),
                key == operator.terms()[i as int].0,
                value == operator.terms()[i as int].1,
                lefts == expansion::<A, B>(key.0),
                rights == expansion::<A, B>(key.1),
                left_terms@.len() == lefts.len(),
                forall|k: int|
                    0 <= k < left_terms@.len() ==> (#[trigger] left_terms@[k]).0@ == lefts[k].0
                        && left_terms@[k].1 == lefts[k].1,
                right_terms@.len() == rights.len(),
                forall|k: int|
                    0 <= k < right_terms@.len() ==> (#[trigger] right_terms@[k]).0@ == rights[k].0
                        && right_terms@[k].1 == rights[k].1,
                r@ == accumulate(Map::empty(), done + pair_rows(lefts.take(a as int), rights, value)),
            decreases left_terms.len() - a,
        {
            let ghost rows = done + pair_rows(lefts.take(a as int), rights, value);
            let ghost row = pair_row(lefts[a as int], rights, value);
            let left_factor = coeff_from_prefactor(left_terms[a].1);
            let scaled = coeff_mul(operator.value_at(i), &left_factor);
            let mut b: usize = 0;
            assert(rows + row.take(0) =~= rows);
            while b < right_terms.len()
                invariant
                    b <= right_terms.len(),
                    a < left_terms.len(),
                    left_terms@.len() == lefts.len(),
                    left_terms@[a as int].0@ == lefts[a as int].0,
                    left_terms@[a as int].1 == lefts[a as int].1,
                    right_terms@.len() == rights.len(),
                    forall|k: int|
                        0 <= k < right_terms@.len() ==> (#[trigger] right_terms@[k]).0@ == rights[k].0
                            && right_terms@[k].1 == rights[k].1,
                    row == pair_row(lefts[a as int], rights, value),
                    scaled == coeff_product(value, prefactor_coefficient(lefts[a as int].1)),
                    r@ == accumulate(Map::empty(), rows + row.take(b as int)),
                decreases right_terms.len() - b,
            {
                proof {
                    lemma_accumulate_push(
                        Map::empty(),
                        rows + row.take(b as int),
                        row[b as int].0,
                        row[b as int].1,
                    );
                    assert((rows + row.take(b as int)).push(row[b as int]) =~= rows + row.take(
                        b + 1,
                    ));
                }
                let right_factor = coeff_from_prefactor(right_terms[b].1);
                let coefficient = coeff_mul(&scaled, &right_factor);
                let _ = r.add_operator_product(
                    (left_terms[a].0.clone(), right_terms[b].0.clone()),
                    coefficient,
                );
                b += 1;
            }
            proof {
                assert(row.take(b as int) =~= row);
                assert(lefts.take(a + 1).drop_last() =~= lefts.take(a as int));
                assert(lefts.take(a + 1).last() == lefts[a as int]);
                assert(rows + row =~= done + pair_rows(lefts.take(a + 1), rights, value));
            }
            a += 1;
        }
        proof {
            assert(lefts.take(a as int) =~= lefts);
            assert(operator.terms().take(i + 1).drop_last() =~= operator.terms().take(i as int));
        }
        i += 1;
    }
    assert(operator.terms().take(i as int) =~= operator.terms());
    r
}

} // verus!
