//! Products of Pauli operators.

use crate::indices::span;
use crate::key::MultiplyKey;
use crate::modes::lemma_span_bounds;
use crate::sign::{Phase, Sign};
use crate::site_product::{
    has_site, lemma_symbol_at_entry, site_canonical, sites, symbol_at, with_symbol, LetterSymbol,
    SiteProduct, SiteSymbol,
};
use vstd::prelude::*;

verus! {

/// A Pauli operator on one site, or the identity.
#[derive(Clone, Copy, Debug, PartialEq, Eq, Structural, Hash, PartialOrd, Ord)]
pub enum SingleSpinOperator {
    Identity,
    X,
    Y,
    Z,
}

/// The product of two Pauli operators on one site: the operator and the
/// phase of `left * right`.
pub open spec fn pauli_table(left: SingleSpinOperator, right: SingleSpinOperator) -> (
    SingleSpinOperator,
    Phase,
) {
    match (left, right) {
        (SingleSpinOperator::Identity, p) => (p, Phase::One),
        (p, SingleSpinOperator::Identity) => (p, Phase::One),
        (SingleSpinOperator::X, SingleSpinOperator::X) => (SingleSpinOperator::Identity, Phase::One),
        (SingleSpinOperator::X, SingleSpinOperator::Y) => (SingleSpinOperator::Z, Phase::I),
        (SingleSpinOperator::X, SingleSpinOperator::Z) => (SingleSpinOperator::Y, Phase::MinusI),
        (SingleSpinOperator::Y, SingleSpinOperator::X) => (SingleSpinOperator::Z, Phase::MinusI),
        (SingleSpinOperator::Y, SingleSpinOperator::Y) => (SingleSpinOperator::Identity, Phase::One),
        (SingleSpinOperator::Y, SingleSpinOperator::Z) => (SingleSpinOperator::X, Phase::I),
        (SingleSpinOperator::Z, SingleSpinOperator::X) => (SingleSpinOperator::Y, Phase::I),
        (SingleSpinOperator::Z, SingleSpinOperator::Y) => (SingleSpinOperator::X, Phase::MinusI),
        (SingleSpinOperator::Z, SingleSpinOperator::Z) => (SingleSpinOperator::Identity, Phase::One),
    }
}

impl SingleSpinOperator {
    /// The product `self * right` on one site: the operator and its phase.
    pub fn multiply(self, right: SingleSpinOperator) -> (r: (SingleSpinOperator, Phase))
        ensures
            r == pauli_table(self, right),
    {
        match (self, right) {
            (SingleSpinOperator::Identity, p) => (p, Phase::One),
            (p, SingleSpinOperator::Identity) => (p, Phase::One),
            (SingleSpinOperator::X, SingleSpinOperator::X) => (SingleSpinOperator::Identity, Phase::One),
            (SingleSpinOperator::X, SingleSpinOperator::Y) => (SingleSpinOperator::Z, Phase::I),
            (SingleSpinOperator::X, SingleSpinOperator::Z) => (SingleSpinOperator::Y, Phase::MinusI),
            (SingleSpinOperator::Y, SingleSpinOperator::X) => (SingleSpinOperator::Z, Phase::MinusI),
            (SingleSpinOperator::Y, SingleSpinOperator::Y) => (SingleSpinOperator::Identity, Phase::One),
            (SingleSpinOperator::Y, SingleSpinOperator::Z) => (SingleSpinOperator::X, Phase::I),
            (SingleSpinOperator::Z, SingleSpinOperator::X) => (SingleSpinOperator::Y, Phase::I),
            (SingleSpinOperator::Z, SingleSpinOperator::Y) => (SingleSpinOperator::X, Phase::MinusI),
            (SingleSpinOperator::Z, SingleSpinOperator::Z) => (SingleSpinOperator::Identity, Phase::One),
        }
    }
}

impl SiteSymbol for SingleSpinOperator {
    open spec fn identity() -> Self {
        SingleSpinOperator::Identity
    }

    open spec fn adjoint(self) -> Self {
        self
    }

    open spec fn adjoint_sign(self) -> Sign {
        Sign::Plus
    }

    proof fn lemma_adjoint(s: Self) {
    }

    open spec fn code(self) -> usize {
        match self {
            SingleSpinOperator::Identity => 0,
            SingleSpinOperator::X => 1,
            SingleSpinOperator::Y => 2,
            SingleSpinOperator::Z => 3,
        }
    }

    open spec fn of_code(code: usize) -> Option<Self> {
        if code == 0 {
            Some(SingleSpinOperator::Identity)
        } else if code == 1 {
            Some(SingleSpinOperator::X)
        } else if code == 2 {
            Some(SingleSpinOperator::Y)
        } else if code == 3 {
            Some(SingleSpinOperator::Z)
        } else {
            None
        }
    }

    proof fn lemma_code(s: Self) {
    }

    fn symbol_code(&self) -> (c: usize) {
        match self {
            SingleSpinOperator::Identity => 0,
            SingleSpinOperator::X => 1,
            SingleSpinOperator::Y => 2,
            SingleSpinOperator::Z => 3,
        }
    }

    fn symbol_from_code(code: usize) -> (r: Option<Self>) {
        if code == 0 {
            Some(SingleSpinOperator::Identity)
        } else if code == 1 {
            Some(SingleSpinOperator::X)
        } else if code == 2 {
            Some(SingleSpinOperator::Y)
        } else if code == 3 {
            Some(SingleSpinOperator::Z)
        } else {
            None
        }
    }

    fn unit() -> (r: Self) {
        SingleSpinOperator::Identity
    }

    fn symbol_is_identity(&self) -> (b: bool) {
        match self {
            SingleSpinOperator::Identity => true,
            _ => false,
        }
    }

    fn same_symbol(&self, other: &Self) -> (b: bool) {
        *self == *other
    }

    fn symbol_adjoint(&self) -> (r: (Self, Sign)) {
        (*self, Sign::Plus)
    }
}

impl LetterSymbol for SingleSpinOperator {
    open spec fn family() -> Seq<char> {
        "Spin"@
    }

    fn symbol_family() -> (r: String) {
        "Spin".to_owned()
    }

    open spec fn letter(self) -> char {
        match self {
            SingleSpinOperator::Identity => 'I',
            SingleSpinOperator::X => 'X',
            SingleSpinOperator::Y => 'Y',
            SingleSpinOperator::Z => 'Z',
        }
    }

    open spec fn of_letter(c: char) -> Option<SingleSpinOperator> {
        if c == 'I' {
            Some(SingleSpinOperator::Identity)
        } else if c == 'X' {
            Some(SingleSpinOperator::X)
        } else if c == 'Y' {
            Some(SingleSpinOperator::Y)
        } else if c == 'Z' {
            Some(SingleSpinOperator::Z)
        } else {
            None
        }
    }

    proof fn lemma_letter(s: Self) {
    }

    fn to_char(&self) -> (c: char) {
        match self {
            SingleSpinOperator::Identity => 'I',
            SingleSpinOperator::X => 'X',
            SingleSpinOperator::Y => 'Y',
            SingleSpinOperator::Z => 'Z',
        }
    }

    fn from_char(c: char) -> (r: Option<SingleSpinOperator>) {
        if c == 'I' {
            Some(SingleSpinOperator::Identity)
        } else if c == 'X' {
            Some(SingleSpinOperator::X)
        } else if c == 'Y' {
            Some(SingleSpinOperator::Y)
        } else if c == 'Z' {
            Some(SingleSpinOperator::Z)
        } else {
            None
        }
    }
}

/// The entries of a Pauli product: sites with their operators.
pub type PauliItems = Seq<(usize, SingleSpinOperator)>;

/// A product of Pauli operators on distinct sites, in ascending order of
/// the sites.
pub type PauliProduct = SiteProduct<SingleSpinOperator>;

/// The entries of the product of two Pauli products: site by site, the
/// product of the operators where it is not the identity.
pub open spec fn merged(left: PauliItems, right: PauliItems) -> PauliItems
    decreases left.len() + right.len(),
{
    if left.len() == 0 {
        right
    } else if right.len() == 0 {
        left
    } else if left[0].0 < right[0].0 {
        seq![left[0]] + merged(left.drop_first(), right)
    } else if left[0].0 > right[0].0 {
        seq![right[0]] + merged(left, right.drop_first())
    } else {
        let p = pauli_table(left[0].1, right[0].1).0;
        (if p == SingleSpinOperator::Identity {
            Seq::<(usize, SingleSpinOperator)>::empty()
        } else {
            seq![(left[0].0, p)]
        }) + merged(left.drop_first(), right.drop_first())
    }
}

/// The exponent of `i` in the phase of the product of two Pauli products:
/// the sum of the exponents that the sites with two operators give.
pub open spec fn merged_exponent(left: PauliItems, right: PauliItems) -> int
    decreases left.len() + right.len(),
{
    if left.len() == 0 || right.len() == 0 {
        0
    } else if left[0].0 < right[0].0 {
        merged_exponent(left.drop_first(), right)
    } else if left[0].0 > right[0].0 {
        merged_exponent(left, right.drop_first())
    } else {
        pauli_table(left[0].1, right[0].1).1.exponent() + merged_exponent(
            left.drop_first(),
            right.drop_first(),
        )
    }
}

impl SiteProduct<SingleSpinOperator> {
    /// The product with the operator X on a site.
    pub fn x(self, index: usize) -> (r: Self)
        ensures
            index < usize::MAX ==> r@ == with_symbol(self@, index, SingleSpinOperator::X),
            index == usize::MAX ==> r@ == self@,
    {
        self.set_pauli(index, SingleSpinOperator::X)
    }

    /// The product with the operator Y on a site.
    pub fn y(self, index: usize) -> (r: Self)
        ensures
            index < usize::MAX ==> r@ == with_symbol(self@, index, SingleSpinOperator::Y),
            index == usize::MAX ==> r@ == self@,
    {
        self.set_pauli(index, SingleSpinOperator::Y)
    }

    /// The product with the operator Z on a site.
    pub fn z(self, index: usize) -> (r: Self)
        ensures
            index < usize::MAX ==> r@ == with_symbol(self@, index, SingleSpinOperator::Z),
            index == usize::MAX ==> r@ == self@,
    {
        self.set_pauli(index, SingleSpinOperator::Z)
    }

    /// The product `left * right` of two Pauli products, and its phase.
    pub fn multiply(left: &PauliProduct, right: &PauliProduct) -> (r: (PauliProduct, Phase))
        ensures
            r.0@ == merged(left@, right@),
            r.1 == Phase::of_exponent(merged_exponent(left@, right@)),
    {
        let llen = left.len();
        let rlen = right.len();
        let mut out: Vec<(usize, SingleSpinOperator)> = Vec::new();
        let mut phase = Phase::One;
        let ghost mut exponent: int = 0;
        let mut i: usize = 0;
        let mut j: usize = 0;
        assert(left@.skip(0) =~= left@);
        assert(right@.skip(0) =~= right@);
        while i < llen && j < rlen
            invariant
                llen == left@.len(),
                rlen == right@.len(),
                i <= llen,
                j <= rlen,
                site_canonical(left@),
                site_canonical(right@),
                site_canonical(out@),
                forall|k: int, m: int|
                    0 <= k < out@.len() && i <= m < left@.len() ==> (#[trigger] out@[k]).0 < (
                    #[trigger] left@[m]).0,
                forall|k: int, m: int|
                    0 <= k < out@.len() && j <= m < right@.len() ==> (#[trigger] out@[k]).0 < (
                    #[trigger] right@[m]).0,
                merged(left@, right@) =~= out@ + merged(left@.skip(i as int), right@.skip(j as int)),
                merged_exponent(left@, right@) == exponent + merged_exponent(
                    left@.skip(i as int),
                    right@.skip(j as int),
                ),
                phase == Phase::of_exponent(exponent),
            decreases llen - i + rlen - j,
        {
            let ghost l = left@.skip(i as int);
            let ghost r = right@.skip(j as int);
            proof {
                assert(l[0] == left@[i as int]);
                assert(r[0] == right@[j as int]);
                assert(l.drop_first() =~= left@.skip(i + 1));
                assert(r.drop_first() =~= right@.skip(j + 1));
            }
            let a = left.item(i);
            let b = right.item(j);
            if a.0 < b.0 {
                proof {
                    assert forall|m: int| i < m < left@.len() implies a.0 < (#[trigger] left@[m]).0 by {
                        assert(left@[i as int].0 < left@[m].0);
                    }
                    assert forall|m: int| j <= m < right@.len() implies a.0 < (#[trigger] right@[m]).0 by {
                        if m > j {
                            assert(right@[j as int].0 < right@[m].0);
                        }
                    }
                }
                out.push(a);
                i += 1;
            } else if a.0 > b.0 {
                proof {
                    assert forall|m: int| j < m < right@.len() implies b.0 < (#[trigger] right@[m]).0 by {
                        assert(right@[j as int].0 < right@[m].0);
                    }
                    assert forall|m: int| i <= m < left@.len() implies b.0 < (#[trigger] left@[m]).0 by {
                        if m > i {
                            assert(left@[i as int].0 < left@[m].0);
                        }
                    }
                }
                out.push(b);
                j += 1;
            } else {
                let (p, factor) = a.1.multiply(b.1);
                proof {
                    assert forall|m: int| i < m < left@.len() implies a.0 < (#[trigger] left@[m]).0 by {
                        assert(left@[i as int].0 < left@[m].0);
                    }
                    assert forall|m: int| j < m < right@.len() implies a.0 < (#[trigger] right@[m]).0 by {
                        assert(right@[j as int].0 < right@[m].0);
                    }
                    exponent = exponent + factor.exponent();
                }
                phase = phase.times(factor);
                match p {
                    SingleSpinOperator::Identity => {},
                    _ => {
                        out.push((a.0, p));
                    },
                }
                i += 1;
                j += 1;
            }
        }
        proof {
            let l = left@.skip(i as int);
            let r = right@.skip(j as int);
            assert(merged(l, r) =~= l + r);
            assert(merged_exponent(l, r) == 0);
        }
        while i < llen
            invariant
                llen == left@.len(),
                rlen == right@.len(),
                i <= llen,
                j <= rlen,
                i == llen || j == rlen,
                site_canonical(left@),
                site_canonical(out@),
                forall|k: int, m: int|
                    0 <= k < out@.len() && i <= m < left@.len() ==> (#[trigger] out@[k]).0 < (
                    #[trigger] left@[m]).0,
                forall|k: int, m: int|
                    0 <= k < out@.len() && j <= m < right@.len() ==> (#[trigger] out@[k]).0 < (
                    #[trigger] right@[m]).0,
                merged(left@, right@) =~= out@ + left@.skip(i as int) + right@.skip(j as int),
            decreases llen - i,
        {
            proof {
                assert forall|m: int| i < m < left@.len() implies left@[i as int].0 < (
                #[trigger] left@[m]).0 by {}
                assert(left@.skip(i as int) =~= seq![left@[i as int]] + left@.skip(i + 1));
            }
            out.push(left.item(i));
            i += 1;
        }
        while j < rlen
            invariant
                llen == left@.len(),
                rlen == right@.len(),
                i == llen,
                j <= rlen,
                site_canonical(right@),
                site_canonical(out@),
                forall|k: int, m: int|
                    0 <= k < out@.len() && j <= m < right@.len() ==> (#[trigger] out@[k]).0 < (
                    #[trigger] right@[m]).0,
                merged(left@, right@) =~= out@ + left@.skip(i as int) + right@.skip(j as int),
            decreases rlen - j,
        {
            proof {
                assert forall|m: int| j < m < right@.len() implies right@[j as int].0 < (
                #[trigger] right@[m]).0 by {}
                assert(right@.skip(j as int) =~= seq![right@[j as int]] + right@.skip(j + 1));
            }
            out.push(right.item(j));
            j += 1;
        }
        (SiteProduct::from_canonical(out), phase)
    }
}

/// Every site of a product of two Pauli products is a site of a factor.
pub proof fn lemma_merged_sites(left: PauliItems, right: PauliItems)
    ensures
        forall|k: int|
            0 <= k < merged(left, right).len() ==> has_site(left, (#[trigger] merged(left, right)[k]).0)
                || has_site(right, merged(left, right)[k].0),
    decreases left.len() + right.len(),
{
    let all = merged(left, right);
    if left.len() == 0 {
        assert forall|k: int| 0 <= k < all.len() implies has_site(right, (#[trigger] all[k]).0) by {
            assert(right[k].0 == all[k].0);
        }
    } else if right.len() == 0 {
        assert forall|k: int| 0 <= k < all.len() implies has_site(left, (#[trigger] all[k]).0) by {
            assert(left[k].0 == all[k].0);
        }
    } else {
        let (l, r) = if left[0].0 < right[0].0 {
            (left.drop_first(), right)
        } else if left[0].0 > right[0].0 {
            (left, right.drop_first())
        } else {
            (left.drop_first(), right.drop_first())
        };
        lemma_merged_sites(l, r);
        let tail = merged(l, r);
        let lead = all.len() - tail.len();
        assert forall|k: int| 0 <= k < all.len() implies has_site(left, (#[trigger] all[k]).0)
            || has_site(right, all[k].0) by {
            if k < lead {
                assert(all[k].0 == left[0].0 || all[k].0 == right[0].0);
                assert(left[0].0 == left[0].0 && right[0].0 == right[0].0);
            } else {
                assert(all[k] == tail[k - lead]);
                if has_site(l, tail[k - lead].0) {
                    let m = choose|m: int| 0 <= m < l.len() && (#[trigger] l[m]).0 == tail[k - lead].0;
                    if l.len() < left.len() {
                        assert(left[m + 1] == l[m]);
                    }
                }
                if has_site(r, tail[k - lead].0) {
                    let m = choose|m: int| 0 <= m < r.len() && (#[trigger] r[m]).0 == tail[k - lead].0;
                    if r.len() < right.len() {
                        assert(right[m + 1] == r[m]);
                    }
                }
            }
        }
    }
}

impl MultiplyKey for SiteProduct<SingleSpinOperator> {
    open spec fn product(a: PauliItems, b: PauliItems) -> Seq<(PauliItems, Phase)> {
        seq![(merged(a, b), Phase::of_exponent(merged_exponent(a, b)))]
    }

    proof fn lemma_product_span(a: PauliItems, b: PauliItems) {
        let all = merged(a, b);
        lemma_merged_sites(a, b);
        lemma_span_bounds(sites(all));
        lemma_span_bounds(sites(a));
        lemma_span_bounds(sites(b));
        if all.len() > 0 {
            let i = choose|i: int| 0 <= i < sites(all).len() && sites(all)[i] + 1 == span(sites(all));
            assert(sites(all)[i] == all[i].0);
            if has_site(a, all[i].0) {
                let m = choose|m: int| 0 <= m < a.len() && (#[trigger] a[m]).0 == all[i].0;
                assert(sites(a)[m] == a[m].0);
            } else {
                let m = choose|m: int| 0 <= m < b.len() && (#[trigger] b[m]).0 == all[i].0;
                assert(sites(b)[m] == b[m].0);
            }
        }
        assert(Self::product(a, b)[0].0 == all);
    }

    fn key_product(&self, other: &Self) -> (r: Vec<(Self, Phase)>) {
        let mut r: Vec<(PauliProduct, Phase)> = Vec::new();
        r.push(PauliProduct::multiply(self, other));
        r
    }
}

/// Whether every site of a product is at or above a bound.
pub open spec fn sites_from(items: PauliItems, low: int) -> bool {
    forall|i: int| 0 <= i < items.len() ==> (#[trigger] items[i]).0 >= low
}

/// A canonical product without its first entry is canonical, has its sites
/// above the site of that entry, and has the operators of the product on
/// all other sites.
pub proof fn lemma_first_entry(items: PauliItems)
    requires
        site_canonical(items),
        items.len() > 0,
    ensures
        site_canonical(items.drop_first()),
        sites_from(items.drop_first(), items[0].0 + 1),
        symbol_at(items, items[0].0) == items[0].1,
        symbol_at(items.drop_first(), items[0].0) == SingleSpinOperator::Identity,
        forall|k: usize| k != items[0].0 ==> symbol_at(items.drop_first(), k) == symbol_at(items, k),
{
    let rest = items.drop_first();
    assert forall|i: int| 0 <= i < rest.len() implies #[trigger] rest[i] == items[i + 1] by {}
    assert forall|i: int, j: int| 0 <= i < j < rest.len() implies (#[trigger] rest[i]).0 < (
    #[trigger] rest[j]).0 by {
        assert(items[i + 1].0 < items[j + 1].0);
    }
    assert forall|i: int| 0 <= i < rest.len() implies (#[trigger] rest[i]).0 >= items[0].0 + 1 by {
        assert(items[0].0 < items[i + 1].0);
    }
    lemma_symbol_at_entry(items, 0);
    if has_site(rest, items[0].0) {
        let m = choose|m: int| 0 <= m < rest.len() && (#[trigger] rest[m]).0 == items[0].0;
        assert(rest[m].0 >= items[0].0 + 1);
    }
    assert forall|k: usize| k != items[0].0 implies symbol_at(rest, k) == symbol_at(items, k) by {
        if has_site(items, k) {
            let m = choose|m: int| 0 <= m < items.len() && (#[trigger] items[m]).0 == k;
            lemma_symbol_at_entry(items, m);
            assert(rest[m - 1] == items[m]);
            lemma_symbol_at_entry(rest, m - 1);
        } else if has_site(rest, k) {
            let m = choose|m: int| 0 <= m < rest.len() && (#[trigger] rest[m]).0 == k;
            assert(items[m + 1].0 == k);
        }
    }
}

/// A product has the identity on the sites below its lowest site.
pub proof fn lemma_identity_below(items: PauliItems, low: int, k: usize)
    requires
        sites_from(items, low),
        k < low,
    ensures
        symbol_at(items, k) == SingleSpinOperator::Identity,
{
    if has_site(items, k) {
        let m = choose|m: int| 0 <= m < items.len() && (#[trigger] items[m]).0 == k;
        assert(items[m].0 >= low);
    }
}

/// A canonical product with an entry for a lower site in front is
/// canonical, with the operator of the entry on its site and the operators
/// of the product on all other sites.
pub proof fn lemma_entry_in_front(site: usize, p: SingleSpinOperator, rest: PauliItems)
    requires
        site_canonical(rest),
        sites_from(rest, site + 1),
        p != SingleSpinOperator::Identity,
        site < usize::MAX,
    ensures
        site_canonical(seq![(site, p)] + rest),
        sites_from(seq![(site, p)] + rest, site as int),
        forall|k: usize|
            symbol_at(seq![(site, p)] + rest, k) == if k == site {
                p
            } else {
                symbol_at(rest, k)
            },
{
    let all = seq![(site, p)] + rest;
    assert forall|i: int| 1 <= i < all.len() implies #[trigger] all[i] == rest[i - 1] by {}
    assert(all[0] == (site, p));
    assert forall|i: int, j: int| 0 <= i < j < all.len() implies (#[trigger] all[i]).0 < (
    #[trigger] all[j]).0 by {
        if i == 0 {
            assert(rest[j - 1].0 >= site + 1);
        } else {
            assert(rest[i - 1].0 < rest[j - 1].0);
        }
    }
    assert forall|i: int| 0 <= i < all.len() implies (#[trigger] all[i]).1
        != SingleSpinOperator::Identity && all[i].0 < usize::MAX by {
        if i > 0 {
            assert(all[i] == rest[i - 1]);
        }
    }
    assert forall|i: int| 0 <= i < all.len() implies (#[trigger] all[i]).0 >= site by {
        if i > 0 {
            assert(rest[i - 1].0 >= site + 1);
        }
    }
    assert(all.drop_first() =~= rest);
    lemma_first_entry(all);
    lemma_identity_below(rest, site + 1, site);
}

/// The product of two canonical Pauli products is canonical and has on each
/// site the product of the operators of the factors.
pub proof fn lemma_merged_pointwise(left: PauliItems, right: PauliItems, low: int)
    requires
        site_canonical(left),
        site_canonical(right),
        sites_from(left, low),
        sites_from(right, low),
    ensures
        site_canonical(merged(left, right)),
        sites_from(merged(left, right), low),
        forall|k: usize|
            symbol_at(merged(left, right), k) == pauli_table(
                symbol_at(left, k),
                symbol_at(right, k),
            ).0,
    decreases left.len() + right.len(),
{
    let all = merged(left, right);
    if left.len() == 0 {
        assert forall|k: usize| symbol_at(left, k) == SingleSpinOperator::Identity by {
            if has_site(left, k) {
                let m = choose|m: int| 0 <= m < left.len() && (#[trigger] left[m]).0 == k;
            }
        }
    } else if right.len() == 0 {
        assert forall|k: usize| symbol_at(right, k) == SingleSpinOperator::Identity by {
            if has_site(right, k) {
                let m = choose|m: int| 0 <= m < right.len() && (#[trigger] right[m]).0 == k;
            }
        }
    } else {
        lemma_first_entry(left);
        lemma_first_entry(right);
        assert(left[0].0 >= low && right[0].0 >= low);
        if left[0].0 < right[0].0 {
            let s = left[0].0;
            let l = left.drop_first();
            assert(sites_from(right, s + 1)) by {
                assert forall|i: int| 0 <= i < right.len() implies (#[trigger] right[i]).0 >= s
                    + 1 by {
                    if i > 0 {
                        assert(right[0].0 < right[i].0);
                    }
                }
            }
            lemma_merged_pointwise(l, right, s + 1);
            lemma_entry_in_front(s, left[0].1, merged(l, right));
            lemma_identity_below(right, s + 1, s);
            assert(all == seq![left[0]] + merged(l, right));
        } else if left[0].0 > right[0].0 {
            let s = right[0].0;
            let r = right.drop_first();
            assert(sites_from(left, s + 1)) by {
                assert forall|i: int| 0 <= i < left.len() implies (#[trigger] left[i]).0 >= s + 1 by {
                    if i > 0 {
                        assert(left[0].0 < left[i].0);
                    }
                }
            }
            lemma_merged_pointwise(left, r, s + 1);
            lemma_entry_in_front(s, right[0].1, merged(left, r));
            lemma_identity_below(left, s + 1, s);
            assert(all == seq![right[0]] + merged(left, r));
        } else {
            let s = left[0].0;
            let l = left.drop_first();
            let r = right.drop_first();
            let p = pauli_table(left[0].1, right[0].1).0;
            lemma_merged_pointwise(l, r, s + 1);
            let tail = merged(l, r);
            if p == SingleSpinOperator::Identity {
                assert(all =~= tail);
                lemma_identity_below(tail, s + 1, s);
                assert forall|i: int| 0 <= i < tail.len() implies (#[trigger] tail[i]).0 >= low by {
                    assert(tail[i].0 >= s + 1);
                }
            } else {
                lemma_entry_in_front(s, p, tail);
                assert(all =~= seq![(s, p)] + tail);
            }
        }
        assert forall|i: int| 0 <= i < all.len() implies (#[trigger] all[i]).0 >= low by {
            let s = if left[0].0 < right[0].0 {
                left[0].0
            } else {
                right[0].0
            };
            assert(all[i].0 >= s);
        }
    }
}

/// A canonical product is determined by the operators that it has on the
/// sites.
pub proof fn lemma_same_symbols(a: PauliItems, b: PauliItems)
    requires
        site_canonical(a),
        site_canonical(b),
        forall|k: usize| symbol_at(a, k) == symbol_at(b, k),
    ensures
        a == b,
    decreases a.len() + b.len(),
{
    if a.len() == 0 && b.len() == 0 {
        assert(a =~= b);
    } else if a.len() == 0 {
        lemma_symbol_at_entry(b, 0);
        assert(!has_site(a, b[0].0));
    } else if b.len() == 0 {
        lemma_symbol_at_entry(a, 0);
        assert(!has_site(b, a[0].0));
    } else {
        lemma_first_entry(a);
        lemma_first_entry(b);
        if a[0].0 < b[0].0 {
            assert(sites_from(b, a[0].0 + 1)) by {
                assert forall|i: int| 0 <= i < b.len() implies (#[trigger] b[i]).0 >= a[0].0 + 1 by {
                    if i > 0 {
                        assert(b[0].0 < b[i].0);
                    }
                }
            }
            lemma_identity_below(b, a[0].0 + 1, a[0].0);
        } else if b[0].0 < a[0].0 {
            assert(sites_from(a, b[0].0 + 1)) by {
                assert forall|i: int| 0 <= i < a.len() implies (#[trigger] a[i]).0 >= b[0].0 + 1 by {
                    if i > 0 {
                        assert(a[0].0 < a[i].0);
                    }
                }
            }
            lemma_identity_below(a, b[0].0 + 1, b[0].0);
        } else {
            assert(a[0] == b[0]);
            assert forall|k: usize| symbol_at(a.drop_first(), k) == symbol_at(b.drop_first(), k) by {
                if k != a[0].0 {
                    assert(symbol_at(a.drop_first(), k) == symbol_at(a, k));
                    assert(symbol_at(b.drop_first(), k) == symbol_at(b, k));
                }
            }
            lemma_same_symbols(a.drop_first(), b.drop_first());
            assert(a =~= seq![a[0]] + a.drop_first());
            assert(b =~= seq![b[0]] + b.drop_first());
        }
    }
}

/// The product of Pauli products associates: `(a b) c` and `a (b c)` are
/// the same product.
pub proof fn lemma_merged_associates(a: PauliItems, b: PauliItems, c: PauliItems)
    requires
        site_canonical(a),
        site_canonical(b),
        site_canonical(c),
    ensures
        merged(merged(a, b), c) == merged(a, merged(b, c)),
{
    lemma_merged_pointwise(a, b, 0);
    lemma_merged_pointwise(b, c, 0);
    lemma_merged_pointwise(merged(a, b), c, 0);
    lemma_merged_pointwise(a, merged(b, c), 0);
    assert forall|k: usize|
        symbol_at(merged(merged(a, b), c), k) == symbol_at(merged(a, merged(b, c)), k) by {
        lemma_table_associates(symbol_at(a, k), symbol_at(b, k), symbol_at(c, k));
    }
    lemma_same_symbols(merged(merged(a, b), c), merged(a, merged(b, c)));
}

/// The exponent of `i` that the product of the operators of two products
/// on one site gives.
pub open spec fn site_exponent(left: PauliItems, right: PauliItems, k: int) -> int {
    pauli_table(symbol_at(left, k as usize), symbol_at(right, k as usize)).1.exponent()
}

/// The sum of the exponents that the sites from `low` up to `high` give.
pub open spec fn exponent_sum(left: PauliItems, right: PauliItems, low: int, high: int) -> int
    decreases high - low,
{
    if low >= high {
        0
    } else {
        site_exponent(left, right, low) + exponent_sum(left, right, low + 1, high)
    }
}

/// Sites on which one of two products has the identity give no exponent.
pub proof fn lemma_exponent_sum_zero(left: PauliItems, right: PauliItems, low: int, high: int)
    requires
        forall|k: int| low <= k < high ==> #[trigger] site_exponent(left, right, k) == 0,
    ensures
        exponent_sum(left, right, low, high) == 0,
    decreases high - low,
{
    if low < high {
        lemma_exponent_sum_zero(left, right, low + 1, high);
    }
}

/// A sum of exponents over a range is the sum over its two parts.
pub proof fn lemma_exponent_sum_split(
    left: PauliItems,
    right: PauliItems,
    low: int,
    middle: int,
    high: int,
)
    requires
        low <= middle <= high,
    ensures
        exponent_sum(left, right, low, high) == exponent_sum(left, right, low, middle)
            + exponent_sum(left, right, middle, high),
    decreases middle - low,
{
    if low < middle {
        lemma_exponent_sum_split(left, right, low + 1, middle, high);
    }
}

/// The exponent of the phase of a product of two canonical Pauli products
/// is the sum of the exponents that the sites give.
pub proof fn lemma_merged_exponent(left: PauliItems, right: PauliItems, low: int)
    requires
        site_canonical(left),
        site_canonical(right),
        sites_from(left, low),
        sites_from(right, low),
        0 <= low,
    ensures
        merged_exponent(left, right) == exponent_sum(left, right, low, usize::MAX as int),
    decreases left.len() + right.len(),
{
    let high = usize::MAX as int;
    if left.len() == 0 || right.len() == 0 {
        assert forall|k: int| low <= k < high implies #[trigger] site_exponent(left, right, k)
            == 0 by {
            if left.len() == 0 {
                if has_site(left, k as usize) {
                    let m = choose|m: int|
                        0 <= m < left.len() && (#[trigger] left[m]).0 == k as usize;
                }
            } else {
                if has_site(right, k as usize) {
                    let m = choose|m: int|
                        0 <= m < right.len() && (#[trigger] right[m]).0 == k as usize;
                }
            }
        }
        if low <= high {
            lemma_exponent_sum_zero(left, right, low, high);
        }
    } else {
        lemma_first_entry(left);
        lemma_first_entry(right);
        let s: int = if left[0].0 < right[0].0 {
            left[0].0 as int
        } else {
            right[0].0 as int
        };
        assert(left[0].0 >= low && right[0].0 >= low);
        assert(s < high);
        let (l, r) = if left[0].0 < right[0].0 {
            (left.drop_first(), right)
        } else if left[0].0 > right[0].0 {
            (left, right.drop_first())
        } else {
            (left.drop_first(), right.drop_first())
        };
        assert(sites_from(l, s + 1) && sites_from(r, s + 1)) by {
            assert forall|i: int| 0 <= i < left.len() implies (#[trigger] left[i]).0 >= left[0].0 by {
                if i > 0 {
                    assert(left[0].0 < left[i].0);
                }
            }
            assert forall|i: int| 0 <= i < right.len() implies (#[trigger] right[i]).0
                >= right[0].0 by {
                if i > 0 {
                    assert(right[0].0 < right[i].0);
                }
            }
        }
        lemma_merged_exponent(l, r, s + 1);
        // below the first site both products have the identity
        assert forall|k: int| low <= k < s implies #[trigger] site_exponent(left, right, k)
            == 0 by {
            assert(sites_from(left, s)) by {
                assert forall|i: int| 0 <= i < left.len() implies (#[trigger] left[i]).0 >= s by {
                    if i > 0 {
                        assert(left[0].0 < left[i].0);
                    }
                }
            }
            lemma_identity_below(left, s, k as usize);
        }
        lemma_exponent_sum_zero(left, right, low, s);
        lemma_exponent_sum_split(left, right, low, s, high);
        // above the first site the shorter products have the operators of
        // the products
        assert forall|k: int| s + 1 <= k < high implies #[trigger] site_exponent(l, r, k)
            == site_exponent(left, right, k) by {
            assert(k as usize != left[0].0 || l == left);
            assert(k as usize != right[0].0 || r == right);
        }
        lemma_exponent_sum_same(l, r, left, right, s + 1, high);
        // on the first site
        if left[0].0 < right[0].0 {
            lemma_identity_below(right, s + 1, s as usize);
        } else if left[0].0 > right[0].0 {
            lemma_identity_below(left, s + 1, s as usize);
        }
    }
}

/// Sums of exponents over a range agree where the exponents of the sites
/// agree.
pub proof fn lemma_exponent_sum_same(
    a: PauliItems,
    b: PauliItems,
    c: PauliItems,
    d: PauliItems,
    low: int,
    high: int,
)
    requires
        forall|k: int|
            low <= k < high ==> #[trigger] site_exponent(a, b, k) == site_exponent(c, d, k),
    ensures
        exponent_sum(a, b, low, high) == exponent_sum(c, d, low, high),
    decreases high - low,
{
    if low < high {
        lemma_exponent_sum_same(a, b, c, d, low + 1, high);
    }
}

/// The products of three Pauli operators on one site associate, and so do
/// their phases.
pub proof fn lemma_table_associates(
    x: SingleSpinOperator,
    y: SingleSpinOperator,
    z: SingleSpinOperator,
)
    ensures
        pauli_table(pauli_table(x, y).0, z).0 == pauli_table(x, pauli_table(y, z).0).0,
        (pauli_table(x, y).1.exponent() + pauli_table(pauli_table(x, y).0, z).1.exponent()
            - pauli_table(y, z).1.exponent() - pauli_table(x, pauli_table(y, z).0).1.exponent()) % 4
            == 0,
{
}

/// The exponent that one site gives to `(a b) c` less the one that it gives
/// to `a (b c)`.
pub open spec fn site_difference(
    a: PauliItems,
    b: PauliItems,
    ab: PauliItems,
    c: PauliItems,
    bc: PauliItems,
    k: int,
) -> int {
    site_exponent(a, b, k) + site_exponent(ab, c, k) - site_exponent(b, c, k) - site_exponent(
        a,
        bc,
        k,
    )
}

/// Where each site gives `(a b) c` and `a (b c)` exponents that differ by
/// a multiple of four, so do the sites of a range together.
pub proof fn lemma_exponents_associate(
    a: PauliItems,
    b: PauliItems,
    ab: PauliItems,
    c: PauliItems,
    bc: PauliItems,
    low: int,
    high: int,
)
    requires
        forall|k: int| low <= k < high ==> #[trigger] site_difference(a, b, ab, c, bc, k) % 4 == 0,
    ensures
        (exponent_sum(a, b, low, high) + exponent_sum(ab, c, low, high) - exponent_sum(
            b,
            c,
            low,
            high,
        ) - exponent_sum(a, bc, low, high)) % 4 == 0,
    decreases high - low,
{
    if low < high {
        lemma_exponents_associate(a, b, ab, c, bc, low + 1, high);
        assert(site_difference(a, b, ab, c, bc, low) % 4 == 0);
    }
}

/// The product of Pauli products associates with its phase: `(a b) c` and
/// `a (b c)` are the same product with the same phase.
pub proof fn lemma_pauli_product_associates(a: PauliItems, b: PauliItems, c: PauliItems)
    requires
        site_canonical(a),
        site_canonical(b),
        site_canonical(c),
    ensures
        merged(merged(a, b), c) == merged(a, merged(b, c)),
        Phase::of_exponent(merged_exponent(a, b) + merged_exponent(merged(a, b), c))
            == Phase::of_exponent(merged_exponent(b, c) + merged_exponent(a, merged(b, c))),
{
    lemma_merged_associates(a, b, c);
    lemma_merged_pointwise(a, b, 0);
    lemma_merged_pointwise(b, c, 0);
    lemma_merged_exponent(a, b, 0);
    lemma_merged_exponent(merged(a, b), c, 0);
    lemma_merged_exponent(b, c, 0);
    lemma_merged_exponent(a, merged(b, c), 0);
    let ab = merged(a, b);
    let bc = merged(b, c);
    assert forall|k: int| 0 <= k < usize::MAX as int implies #[trigger] site_difference(
        a,
        b,
        ab,
        c,
        bc,
        k,
    ) % 4 == 0 by {
        let x = symbol_at(a, k as usize);
        let y = symbol_at(b, k as usize);
        let z = symbol_at(c, k as usize);
        assert(symbol_at(ab, k as usize) == pauli_table(x, y).0);
        assert(symbol_at(bc, k as usize) == pauli_table(y, z).0);
        lemma_table_associates(x, y, z);
    }
    lemma_exponents_associate(a, b, ab, c, bc, 0, usize::MAX as int);
}

} // verus!
