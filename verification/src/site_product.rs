//! Products of single-site operators, at most one on each site.
//!
//! Pauli products, products of raising and lowering operators, and the
//! products that span the Lindblad operators of spins are all rows of
//! entries, each a site with an operator that is not the identity, in
//! ascending order of the sites. They differ in the operators that a site
//! can have.

use crate::error::StruqtureError;
use crate::indices::span;
use crate::key::{
    rows_view, texts_view, CompactKey, ConjugateKey, OperatorKey, SingleTextKey, TextKey, TwoRowKey,
};
use crate::modes::lemma_render_push;
use crate::sign::Sign;
use crate::text::{is_digit, lemma_scan_render, push_char, push_token, render, scan, scan_tokens};
use std::collections::HashMap;
use vstd::prelude::*;

verus! {

/// The operators that a site can have in a product of some kind.
pub trait SiteSymbol: Copy + Sized {
    /// The identity, which a site has where the product names none for it.
    spec fn identity() -> Self;

    /// The adjoint of the operator, up to its sign.
    spec fn adjoint(self) -> Self;

    /// The sign of the adjoint: `-1` for an operator that is minus its own
    /// adjoint.
    spec fn adjoint_sign(self) -> Sign;

    /// Taking the adjoint twice gives the operator back, with the same sign
    /// each time; only the identity has the identity as adjoint.
    proof fn lemma_adjoint(s: Self)
        ensures
            s.adjoint().adjoint() == s,
            s.adjoint().adjoint_sign() == s.adjoint_sign(),
            s.adjoint_sign() != Sign::Zero,
            (s.adjoint() == Self::identity()) == (s == Self::identity()),
    ;

    /// The number that stands for the operator in a compact form.
    spec fn code(self) -> usize;

    /// The operator that a number stands for in a compact form.
    spec fn of_code(code: usize) -> Option<Self>;

    /// Each operator is what its number stands for.
    proof fn lemma_code(s: Self)
        ensures
            Self::of_code(s.code()) == Some(s),
    ;

    /// The number that stands for the operator in a compact form.
    fn symbol_code(&self) -> (c: usize)
        ensures
            c == self.code(),
    ;

    /// The operator that a number stands for in a compact form.
    fn symbol_from_code(code: usize) -> (r: Option<Self>)
        ensures
            r == Self::of_code(code),
    ;

    /// The identity.
    fn unit() -> (r: Self)
        ensures
            r == Self::identity(),
    ;

    /// Whether the operator is the identity.
    fn symbol_is_identity(&self) -> (b: bool)
        ensures
            b == (*self == Self::identity()),
    ;

    /// Whether two operators are the same.
    fn same_symbol(&self, other: &Self) -> (b: bool)
        ensures
            b == (*self == *other),
    ;

    /// The adjoint of the operator and its sign.
    fn symbol_adjoint(&self) -> (r: (Self, Sign))
        ensures
            r.0 == self.adjoint(),
            r.1 == self.adjoint_sign(),
    ;
}

/// Operators that are written with one letter each.
pub trait LetterSymbol: SiteSymbol {
    /// The name of the family of operators with these operators on their
    /// sites.
    spec fn family() -> Seq<char>;

    /// The name of the family of operators with these operators on their
    /// sites.
    fn symbol_family() -> (r: String)
        ensures
            r@ == Self::family(),
    ;

    /// The letter that stands for the operator.
    spec fn letter(self) -> char;

    /// The operator that a letter stands for.
    spec fn of_letter(c: char) -> Option<Self>;

    /// Each operator is what its letter stands for, and no letter is a digit.
    proof fn lemma_letter(s: Self)
        ensures
            Self::of_letter(s.letter()) == Some(s),
            !is_digit(s.letter()),
    ;

    /// The letter that stands for the operator.
    fn to_char(&self) -> (c: char)
        ensures
            c == self.letter(),
    ;

    /// The operator that a letter stands for.
    fn from_char(c: char) -> (r: Option<Self>)
        ensures
            r == Self::of_letter(c),
    ;
}

/// Whether a row of entries is a product in canonical form: the sites
/// strictly ascending, no entry the identity, and no site the largest
/// number of the machine.
pub open spec fn site_canonical<S: SiteSymbol>(items: Seq<(usize, S)>) -> bool {
    &&& forall|i: int, j: int| 0 <= i < j < items.len() ==> (#[trigger] items[i]).0 < (#[trigger] items[j]).0
    &&& forall|i: int| 0 <= i < items.len() ==> (#[trigger] items[i]).1 != S::identity()
    &&& forall|i: int| 0 <= i < items.len() ==> (#[trigger] items[i]).0 < usize::MAX
}

/// Whether a row of entries has an entry for a site.
pub open spec fn has_site<S: SiteSymbol>(items: Seq<(usize, S)>, site: usize) -> bool {
    exists|i: int| 0 <= i < items.len() && (#[trigger] items[i]).0 == site
}

/// The operator that a product has on a site: the identity where it has no
/// entry for the site.
pub open spec fn symbol_at<S: SiteSymbol>(items: Seq<(usize, S)>, site: usize) -> S {
    if has_site(items, site) {
        items[choose|i: int| 0 <= i < items.len() && (#[trigger] items[i]).0 == site].1
    } else {
        S::identity()
    }
}

/// The sites of a row of entries.
pub open spec fn sites<S: SiteSymbol>(items: Seq<(usize, S)>) -> Seq<usize> {
    items.map_values(|t: (usize, S)| t.0)
}

/// The number of spins that a product reaches: one more than its largest site.
pub open spec fn site_span<S: SiteSymbol>(items: Seq<(usize, S)>) -> nat {
    span(sites(items))
}

/// The tokens of a product: each site with the letter of its operator.
pub open spec fn site_tokens<S: LetterSymbol>(items: Seq<(usize, S)>) -> Seq<(char, usize)> {
    items.map_values(|t: (usize, S)| (t.1.letter(), t.0))
}

/// The text of a product: `I` for the product of nothing, else each site
/// followed by the letter of its operator.
pub open spec fn site_text<S: LetterSymbol>(items: Seq<(usize, S)>) -> Seq<char> {
    if items.len() == 0 {
        seq!['I']
    } else {
        render(site_tokens(items), true)
    }
}

/// The entries that a row of tokens names, where each letter stands for an
/// operator.
pub open spec fn entries_of_tokens<S: LetterSymbol>(tokens: Seq<(char, usize)>) -> Option<Seq<(usize, S)>> {
    if forall|i: int|
        0 <= i < tokens.len() ==> S::of_letter((#[trigger] tokens[i]).0).is_some() {
        Some(
            Seq::new(
                tokens.len(),
                |i: int| (tokens[i].1, S::of_letter(tokens[i].0).unwrap()),
            ),
        )
    } else {
        None
    }
}

/// The entries that a text names, in the order of the text.
pub open spec fn parse_site_text<S: LetterSymbol>(s: Seq<char>) -> Option<Seq<(usize, S)>> {
    if s =~= seq!['I'] {
        Some(Seq::empty())
    } else {
        match scan(s, true) {
            Some(tokens) => entries_of_tokens::<S>(tokens),
            None => None,
        }
    }
}

/// The product that a text names, where it names one.
pub open spec fn product_of_text<S: LetterSymbol>(s: Seq<char>) -> Option<Seq<(usize, S)>> {
    match parse_site_text::<S>(s) {
        None => None,
        Some(raw) => assembled(raw),
    }
}

/// The product that a row of entries builds up, with one entry for each
/// site: an entry for a site that has the identity so far sets its operator,
/// an entry that repeats the operator of its site takes it out again, and an
/// entry that names another operator for its site fits no product.
pub open spec fn assembled<S: SiteSymbol>(raw: Seq<(usize, S)>) -> Option<Seq<(usize, S)>>
    decreases raw.len(),
{
    if raw.len() == 0 {
        Some(Seq::empty())
    } else {
        match assembled(raw.drop_last()) {
            None => None,
            Some(items) => {
                let (site, p) = raw.last();
                if site == usize::MAX {
                    None
                } else if p == S::identity() {
                    Some(items)
                } else if symbol_at(items, site) == S::identity() {
                    Some(with_symbol(items, site, p))
                } else if symbol_at(items, site) == p {
                    Some(with_symbol(items, site, S::identity()))
                } else {
                    None
                }
            },
        }
    }
}

/// How many entries at the start of a row have a site below `site`.
pub open spec fn sites_below<S: SiteSymbol>(items: Seq<(usize, S)>, site: usize) -> int
    decreases items.len(),
{
    if items.len() > 0 && items[0].0 < site {
        1 + sites_below(items.drop_first(), site)
    } else {
        0
    }
}

/// A product with the operator of one site replaced.
pub open spec fn with_symbol<S: SiteSymbol>(items: Seq<(usize, S)>, site: usize, p: S) -> Seq<(usize, S)> {
    let k = sites_below(items, site);
    let rest = if k < items.len() && items[k].0 == site {
        items.remove(k)
    } else {
        items
    };
    if p == S::identity() {
        rest
    } else {
        rest.insert(k, (site, p))
    }
}

/// In a canonical product the entries with sites below `site` come first
/// and the others after them.
pub proof fn lemma_sites_below<S: SiteSymbol>(items: Seq<(usize, S)>, site: usize)
    requires
        site_canonical(items),
    ensures
        0 <= sites_below(items, site) <= items.len(),
        forall|i: int| 0 <= i < sites_below(items, site) ==> (#[trigger] items[i]).0 < site,
        forall|i: int| sites_below(items, site) <= i < items.len() ==> (#[trigger] items[i]).0 >= site,
    decreases items.len(),
{
    if items.len() > 0 && items[0].0 < site {
        let rest = items.drop_first();
        assert(site_canonical(rest)) by {
            assert forall|i: int, j: int| 0 <= i < j < rest.len() implies (#[trigger] rest[i]).0 < (
            #[trigger] rest[j]).0 by {
                assert(rest[i] == items[i + 1] && rest[j] == items[j + 1]);
            }
            assert forall|i: int| 0 <= i < rest.len() implies (#[trigger] rest[i]).1
                != S::identity() && rest[i].0 < usize::MAX by {
                assert(rest[i] == items[i + 1]);
            }
        }
        lemma_sites_below(rest, site);
        assert forall|i: int| 0 <= i < sites_below(items, site) implies (#[trigger] items[i]).0
            < site by {
            if i > 0 {
                assert(items[i] == rest[i - 1]);
            }
        }
        assert forall|i: int| sites_below(items, site) <= i < items.len() implies (
        #[trigger] items[i]).0 >= site by {
            assert(items[i] == rest[i - 1]);
        }
    } else if items.len() > 0 {
        assert forall|i: int| 0 <= i < items.len() implies (#[trigger] items[i]).0 >= site by {
            if i > 0 {
                assert(items[0].0 < items[i].0);
            }
        }
    }
}

/// The operator of a canonical product at the site of one of its entries.
pub proof fn lemma_symbol_at_entry<S: SiteSymbol>(items: Seq<(usize, S)>, i: int)
    requires
        site_canonical(items),
        0 <= i < items.len(),
    ensures
        has_site(items, items[i].0),
        symbol_at(items, items[i].0) == items[i].1,
{
    let site = items[i].0;
    assert(has_site(items, site));
    let k = choose|k: int| 0 <= k < items.len() && (#[trigger] items[k]).0 == site;
    if k < i {
        assert(items[k].0 < items[i].0);
    } else if k > i {
        assert(items[i].0 < items[k].0);
    }
}

/// Taking an entry out of a canonical product leaves a canonical product
/// with the identity on the site of the entry and the old operators
/// everywhere else.
pub proof fn lemma_without_entry<S: SiteSymbol>(items: Seq<(usize, S)>, k: int)
    requires
        site_canonical(items),
        0 <= k < items.len(),
    ensures
        site_canonical(items.remove(k)),
        !has_site(items.remove(k), items[k].0),
        forall|other: usize|
            other != items[k].0 ==> symbol_at(items.remove(k), other) == symbol_at(items, other),
        forall|i: int| 0 <= i < k ==> (#[trigger] items.remove(k)[i]).0 < items[k].0,
        forall|i: int| k <= i < items.remove(k).len() ==> (#[trigger] items.remove(k)[i]).0 > items[k].0,
{
    let rest = items.remove(k);
    let site = items[k].0;
    assert forall|i: int| 0 <= i < rest.len() implies #[trigger] rest[i] == items[if i < k {
        i
    } else {
        i + 1
    }] by {}
    assert forall|i: int, j: int| 0 <= i < j < rest.len() implies (#[trigger] rest[i]).0 < (
    #[trigger] rest[j]).0 by {
        let i0 = if i < k { i } else { i + 1 };
        let j0 = if j < k { j } else { j + 1 };
        assert(items[i0].0 < items[j0].0);
    }
    assert forall|i: int| 0 <= i < k implies (#[trigger] rest[i]).0 < site by {
        assert(items[i].0 < items[k].0);
    }
    assert forall|i: int| k <= i < rest.len() implies (#[trigger] rest[i]).0 > site by {
        assert(items[k].0 < items[i + 1].0);
    }
    if has_site(rest, site) {
        let m = choose|m: int| 0 <= m < rest.len() && (#[trigger] rest[m]).0 == site;
        if m < k {
            assert(rest[m].0 < site);
        } else {
            assert(rest[m].0 > site);
        }
    }
    assert forall|other: usize| other != site implies symbol_at(rest, other) == symbol_at(
        items,
        other,
    ) by {
        if has_site(items, other) {
            let m = choose|m: int| 0 <= m < items.len() && (#[trigger] items[m]).0 == other;
            lemma_symbol_at_entry(items, m);
            let m1 = if m > k { m - 1 } else { m };
            assert(rest[m1] == items[m]);
            lemma_symbol_at_entry(rest, m1);
        } else if has_site(rest, other) {
            let m = choose|m: int| 0 <= m < rest.len() && (#[trigger] rest[m]).0 == other;
            let m0 = if m < k { m } else { m + 1 };
            assert(items[m0].0 == other);
        }
    }
}

/// Putting an entry for a new site into a canonical product at its place
/// gives a canonical product with the new operator on that site and the old
/// operators everywhere else.
pub proof fn lemma_with_entry<S: SiteSymbol>(items: Seq<(usize, S)>, k: int, site: usize, p: S)
    requires
        site_canonical(items),
        0 <= k <= items.len(),
        site < usize::MAX,
        p != S::identity(),
        forall|i: int| 0 <= i < k ==> (#[trigger] items[i]).0 < site,
        forall|i: int| k <= i < items.len() ==> (#[trigger] items[i]).0 > site,
    ensures
        site_canonical(items.insert(k, (site, p))),
        symbol_at(items.insert(k, (site, p)), site) == p,
        forall|other: usize|
            other != site ==> symbol_at(items.insert(k, (site, p)), other) == symbol_at(items, other),
{
    let next = items.insert(k, (site, p));
    assert forall|i: int| 0 <= i < next.len() && i != k implies #[trigger] next[i] == items[if i
        < k {
        i
    } else {
        i - 1
    }] by {}
    assert(next[k] == (site, p));
    assert forall|i: int, j: int| 0 <= i < j < next.len() implies (#[trigger] next[i]).0 < (
    #[trigger] next[j]).0 by {
        if i != k && j != k {
            let i0 = if i < k { i } else { i - 1 };
            let j0 = if j < k { j } else { j - 1 };
            assert(items[i0].0 < items[j0].0);
        } else if i == k {
            assert(items[j - 1].0 > site);
        } else {
            assert(items[i].0 < site);
        }
    }
    assert forall|i: int| 0 <= i < next.len() implies (#[trigger] next[i]).1
        != S::identity() && next[i].0 < usize::MAX by {
        if i != k {
            let i0 = if i < k { i } else { i - 1 };
            assert(next[i] == items[i0]);
        }
    }
    lemma_symbol_at_entry(next, k);
    assert forall|other: usize| other != site implies symbol_at(next, other) == symbol_at(
        items,
        other,
    ) by {
        if has_site(items, other) {
            let m = choose|m: int| 0 <= m < items.len() && (#[trigger] items[m]).0 == other;
            lemma_symbol_at_entry(items, m);
            let m1 = if m >= k { m + 1 } else { m };
            assert(next[m1] == items[m]);
            lemma_symbol_at_entry(next, m1);
        } else if has_site(next, other) {
            let m = choose|m: int| 0 <= m < next.len() && (#[trigger] next[m]).0 == other;
            let m0 = if m < k { m } else { m - 1 };
            assert(items[m0].0 == other);
        }
    }
}

/// Replacing the operator of one site of a canonical product gives a
/// canonical product that has the new operator there and the old operators
/// everywhere else.
pub proof fn lemma_with_symbol<S: SiteSymbol>(items: Seq<(usize, S)>, site: usize, p: S)
    requires
        site_canonical(items),
        site < usize::MAX,
    ensures
        site_canonical(with_symbol(items, site, p)),
        forall|other: usize|
            symbol_at(with_symbol(items, site, p), other) == if other == site {
                p
            } else {
                symbol_at(items, other)
            },
{
    let k = sites_below(items, site);
    lemma_sites_below(items, site);
    let present = k < items.len() && items[k].0 == site;
    let rest = if present {
        items.remove(k)
    } else {
        items
    };
    if present {
        lemma_without_entry(items, k);
    } else {
        assert forall|i: int| k <= i < items.len() implies (#[trigger] items[i]).0 > site by {
            if i > k {
                assert(items[k].0 < items[i].0);
            }
        }
        if has_site(items, site) {
            let m = choose|m: int| 0 <= m < items.len() && (#[trigger] items[m]).0 == site;
            if m < k {
                assert(items[m].0 < site);
            } else {
                assert(items[m].0 > site);
            }
        }
    }
    assert(!has_site(rest, site));
    if p != S::identity() {
        lemma_with_entry(rest, k, site, p);
    }
}

/// A product of single-site operators on distinct sites, in ascending
/// order of the sites.
#[derive(Debug, PartialEq, Eq, Hash, PartialOrd, Ord)]
pub struct SiteProduct<S: SiteSymbol> {
    items: Vec<(usize, S)>,
}

impl<S: SiteSymbol> View for SiteProduct<S> {
    type V = Seq<(usize, S)>;

    closed spec fn view(&self) -> Seq<(usize, S)> {
        self.items@
    }
}

impl<S: SiteSymbol> Clone for SiteProduct<S> {
    fn clone(&self) -> (r: Self)
        ensures
            r@ == self@,
    {
        proof {
            use_type_invariant(self);
        }
        SiteProduct { items: copy_items(&self.items) }
    }
}

/// A copy of a row of entries.
pub fn copy_items<S: SiteSymbol>(items: &Vec<(usize, S)>) -> (r: Vec<(usize, S)>)
    ensures
        r@ == items@,
{
    let mut r: Vec<(usize, S)> = Vec::new();
    let mut i: usize = 0;
    while i < items.len()
        invariant
            i <= items.len(),
            r@ =~= items@.take(i as int),
        decreases items.len() - i,
    {
        r.push(items[i]);
        i += 1;
    }
    assert(items@.take(i as int) =~= items@);
    r
}

impl<S: SiteSymbol> SiteProduct<S> {
    #[verifier::type_invariant]
    closed spec fn well_formed(self) -> bool {
        site_canonical(self@)
    }

    /// The product of nothing: the identity.
    pub fn new() -> (r: Self)
        ensures
            r@ =~= Seq::empty(),
    {
        SiteProduct { items: Vec::new() }
    }

    /// The product with the operator of one site replaced. The identity
    /// takes the entry of the site out.
    ///
    /// The largest number of the machine names no site: the product comes
    /// back as it is.
    pub fn set_pauli(self, index: usize, pauli: S) -> (r: Self)
        ensures
            site_canonical(self@),
            site_canonical(r@),
            index < usize::MAX ==> r@ == with_symbol(self@, index, pauli),
            index < usize::MAX ==> forall|other: usize|
                symbol_at(r@, other) == if other == index {
                    pauli
                } else {
                    symbol_at(self@, other)
                },
            index == usize::MAX ==> r@ == self@,
    {
        proof {
            use_type_invariant(&self);
        }
        if index == usize::MAX {
            return self;
        }
        let mut items = self.items;
        let ghost before = items@;
        proof {
            lemma_sites_below(before, index);
            lemma_with_symbol(before, index, pauli);
        }
        let mut k: usize = 0;
        while k < items.len() && items[k].0 < index
            invariant
                k <= items.len(),
                items@ == before,
                site_canonical(before),
                forall|i: int| 0 <= i < k ==> (#[trigger] before[i]).0 < index,
            decreases items.len() - k,
        {
            k += 1;
        }
        proof {
            // the entries from `k` on have sites that are not below `index`
            assert(k == sites_below(before, index)) by {
                let b = sites_below(before, index);
                if k < b {
                    assert(before[k as int].0 < index);
                }
                if b < k {
                    assert(before[b].0 >= index);
                }
            }
        }
        if k < items.len() && items[k].0 == index {
            let _ = items.remove(k);
        }
        if !pauli.symbol_is_identity() {
            items.insert(k, (index, pauli));
        }
        SiteProduct { items }
    }

    /// The operator on a site, where it is not the identity.
    pub fn get(&self, index: usize) -> (r: Option<S>)
        ensures
            r == if symbol_at(self@, index) == S::identity() {
                None
            } else {
                Some(symbol_at(self@, index))
            },
    {
        proof {
            use_type_invariant(self);
        }
        let mut i: usize = 0;
        while i < self.items.len()
            invariant
                i <= self.items.len(),
                site_canonical(self@),
                forall|k: int| 0 <= k < i ==> (#[trigger] self@[k]).0 != index,
            decreases self.items.len() - i,
        {
            if self.items[i].0 == index {
                proof {
                    lemma_symbol_at_entry(self@, i as int);
                }
                return Some(self.items[i].1);
            }
            i += 1;
        }
        None
    }

    /// The number of sites with an operator.
    pub fn len(&self) -> (n: usize)
        ensures
            n == self@.len(),
            site_canonical(self@),
    {
        proof {
            use_type_invariant(self);
        }
        self.items.len()
    }

    /// Whether the product is the identity.
    pub fn is_empty(&self) -> (b: bool)
        ensures
            b == (self@.len() == 0),
    {
        self.items.len() == 0
    }

    /// The site and operator of the entry at place `i`.
    pub fn item(&self, i: usize) -> (r: (usize, S))
        requires
            i < self@.len(),
        ensures
            r == self@[i as int],
    {
        self.items[i]
    }

    /// The number of spins that the product reaches: one more than its
    /// largest site, or 0 for the identity.
    pub fn current_number_spins(&self) -> (n: usize)
        ensures
            n == site_span(self@),
    {
        proof {
            use_type_invariant(self);
        }
        let mut best: usize = 0;
        let mut i: usize = 0;
        assert(sites(self@).take(0) =~= Seq::<usize>::empty());
        while i < self.items.len()
            invariant
                i <= self.items.len(),
                site_canonical(self@),
                best == span(sites(self@).take(i as int)),
            decreases self.items.len() - i,
        {
            proof {
                assert(sites(self@).take(i + 1).drop_last() =~= sites(self@).take(i as int));
            }
            if self.items[i].0 + 1 > best {
                best = self.items[i].0 + 1;
            }
            i += 1;
        }
        assert(sites(self@).take(i as int) =~= sites(self@));
        best
    }

    /// The product that a row of entries builds up, with one entry for each
    /// site.
    ///
    /// An entry with the identity does nothing. An entry that repeats the
    /// operator of its site takes it out again, since a Pauli operator is
    /// its own inverse. Fails with `InvalidIndex` where an entry names
    /// another operator for a site that has one, or a site that is the
    /// largest number of the machine.
    pub fn create(raw: &[(usize, S)]) -> (r: Result<Self, StruqtureError>)
        ensures
            match assembled(raw@) {
                Some(items) => r.is_ok() && r.unwrap()@ == items && site_canonical(items),
                None => r == Err::<Self, StruqtureError>(StruqtureError::InvalidIndex),
            },
    {
        let mut product = SiteProduct::new();
        let mut i: usize = 0;
        assert(raw@.take(0) =~= Seq::empty());
        while i < raw.len()
            invariant
                i <= raw.len(),
                assembled(raw@.take(i as int)) == Some(product@),
            decreases raw.len() - i,
        {
            proof {
                assert(raw@.take(i + 1).drop_last() =~= raw@.take(i as int));
                assert(raw@.take(i + 1).last() == raw@[i as int]);
            }
            let (site, p) = raw[i];
            let ghost failing = raw@.take(i + 1);
            if site == usize::MAX {
                proof {
                    lemma_assembled_fails(raw@, i + 1);
                }
                return Err(StruqtureError::InvalidIndex);
            }
            if !p.symbol_is_identity() {
                match product.get(site) {
                    None => {
                        product = product.set_pauli(site, p);
                    },
                    Some(q) => {
                        if q.same_symbol(&p) {
                            product = product.set_pauli(site, S::unit());
                        } else {
                            proof {
                                lemma_assembled_fails(raw@, i + 1);
                            }
                            return Err(StruqtureError::InvalidIndex);
                        }
                    },
                }
            }
            i += 1;
        }
        assert(raw@.take(i as int) =~= raw@);
        let _ = product.len();
        Ok(product)
    }
}

/// Where a beginning of a row of entries fits no product, the row fits none.
pub proof fn lemma_assembled_fails<S: SiteSymbol>(raw: Seq<(usize, S)>, k: int)
    requires
        0 <= k <= raw.len(),
        assembled(raw.take(k)).is_none(),
    ensures
        assembled(raw).is_none(),
    decreases raw.len() - k,
{
    if k < raw.len() {
        assert(raw.take(k + 1).drop_last() =~= raw.take(k));
        lemma_assembled_fails(raw, k + 1);
    } else {
        assert(raw.take(k) =~= raw);
    }
}

/// The entries of a canonical product build up the product itself.
pub proof fn lemma_assembled_canonical<S: SiteSymbol>(items: Seq<(usize, S)>)
    requires
        site_canonical(items),
    ensures
        assembled(items) == Some(items),
    decreases items.len(),
{
    if items.len() > 0 {
        let rest = items.drop_last();
        let (site, p) = items.last();
        assert(site_canonical(rest)) by {
            assert forall|i: int, j: int| 0 <= i < j < rest.len() implies (#[trigger] rest[i]).0 < (
            #[trigger] rest[j]).0 by {
                assert(rest[i] == items[i] && rest[j] == items[j]);
            }
            assert forall|i: int| 0 <= i < rest.len() implies (#[trigger] rest[i]).1
                != S::identity() && rest[i].0 < usize::MAX by {
                assert(rest[i] == items[i]);
            }
        }
        lemma_assembled_canonical(rest);
        assert(items[items.len() - 1] == (site, p));
        assert forall|i: int| 0 <= i < rest.len() implies (#[trigger] rest[i]).0 < site by {
            assert(rest[i] == items[i]);
            assert(items[i].0 < items[items.len() - 1].0);
        }
        lemma_sites_below(rest, site);
        let k = sites_below(rest, site);
        if k < rest.len() {
            assert(rest[k].0 >= site);
        }
        assert(!has_site(rest, site)) by {
            if has_site(rest, site) {
                let m = choose|m: int| 0 <= m < rest.len() && (#[trigger] rest[m]).0 == site;
                assert(rest[m].0 < site);
            }
        }
        assert(with_symbol(rest, site, p) =~= items);
    }
}

/// The product that a row of entries builds up is canonical.
pub proof fn lemma_assembled_is_canonical<S: SiteSymbol>(raw: Seq<(usize, S)>)
    ensures
        assembled(raw).is_some() ==> site_canonical(assembled(raw).unwrap()),
    decreases raw.len(),
{
    if raw.len() > 0 {
        lemma_assembled_is_canonical(raw.drop_last());
        if assembled(raw.drop_last()).is_some() {
            let items = assembled(raw.drop_last()).unwrap();
            let (site, p) = raw.last();
            if site != usize::MAX {
                lemma_with_symbol(items, site, p);
                lemma_with_symbol(items, site, S::identity());
            }
        }
    } else {
        assert(site_canonical(Seq::<(usize, S)>::empty()));
    }
}

/// Canonicalisation idempotence. The product that a row of entries builds
/// up is canonical; its text reads back as the same product, whose entries
/// build up the product itself: writing and reading a product and building
/// it up again changes nothing.
pub proof fn lemma_site_idempotence<S: LetterSymbol>(raw: Seq<(usize, S)>)
    requires
        assembled(raw).is_some(),
    ensures
        site_canonical(assembled(raw).unwrap()),
        product_of_text::<S>(site_text(assembled(raw).unwrap())) == assembled(raw),
        assembled(assembled(raw).unwrap()) == assembled(raw),
{
    lemma_assembled_is_canonical(raw);
    lemma_site_text_round_trip(assembled(raw).unwrap());
}

/// Canonicalisation idempotence: reading the text of a canonical product
/// gives the product back, and its entries build up the product itself.
pub proof fn lemma_site_text_round_trip<S: LetterSymbol>(items: Seq<(usize, S)>)
    requires
        site_canonical(items),
    ensures
        parse_site_text::<S>(site_text(items)) == Some(items),
        assembled(items) == Some(items),
{
    lemma_assembled_canonical(items);
    if items.len() > 0 {
        let tokens = site_tokens(items);
        let text = render(tokens, true);
        assert forall|i: int| 0 <= i < tokens.len() implies !crate::text::is_digit(
            #[trigger] tokens[i].0,
        ) by {
            S::lemma_letter(items[i].1);
        }
        lemma_scan_render(tokens, true);
        assert(text.len() >= 2) by {
            crate::text::lemma_decimal(tokens[0].1 as nat);
            assert(text =~= crate::text::render_token(tokens[0], true) + render(
                tokens.drop_first(),
                true,
            ));
        }
        assert(!(text =~= seq!['I']));
        assert forall|i: int| 0 <= i < tokens.len() implies S::of_letter(
            (#[trigger] tokens[i]).0,
        ) == Some(items[i].1) by {
            S::lemma_letter(items[i].1);
        }
        assert(entries_of_tokens::<S>(tokens).unwrap() =~= items);
    }
}

impl<S: SiteSymbol> OperatorKey for SiteProduct<S> {
    type Shape = usize;

    open spec fn span(v: Seq<(usize, S)>) -> nat {
        site_span(v)
    }

    open spec fn has_shape(v: Seq<(usize, S)>, shape: usize) -> bool {
        v.len() == shape
    }

    fn same_key(&self, other: &Self) -> (b: bool) {
        if self.items.len() != other.items.len() {
            return false;
        }
        let mut i: usize = 0;
        while i < self.items.len()
            invariant
                i <= self.items.len(),
                self.items.len() == other.items.len(),
                forall|k: int| 0 <= k < i ==> self@[k] == other@[k],
            decreases self.items.len() - i,
        {
            if self.items[i].0 != other.items[i].0 || !self.items[i].1.same_symbol(&other.items[i].1) {
                return false;
            }
            i += 1;
        }
        assert(self@ =~= other@);
        true
    }

    fn copy_key(&self) -> (r: Self) {
        self.clone()
    }

    fn key_span(&self) -> (n: usize) {
        self.current_number_spins()
    }

    fn key_has_shape(&self, shape: &usize) -> (b: bool) {
        self.items.len() == *shape
    }
}

/// The adjoint of a product: the adjoint of the operator on each site.
pub open spec fn site_conjugate<S: SiteSymbol>(items: Seq<(usize, S)>) -> Seq<(usize, S)> {
    Seq::new(items.len(), |i: int| (items[i].0, items[i].1.adjoint()))
}

/// The sign of the adjoint of a product: the signs of the adjoints of its
/// operators multiplied.
pub open spec fn site_conjugate_sign<S: SiteSymbol>(items: Seq<(usize, S)>) -> Sign
    decreases items.len(),
{
    if items.len() == 0 {
        Sign::Plus
    } else {
        site_conjugate_sign(items.drop_last()).product(items.last().1.adjoint_sign())
    }
}

/// Hermiticity. The adjoint of a canonical product is canonical and reaches
/// as far; the adjoint of the adjoint is the product itself, and the signs
/// of both steps multiply to `+1`.
pub proof fn lemma_site_conjugate_twice<S: SiteSymbol>(items: Seq<(usize, S)>)
    ensures
        site_canonical(items) ==> site_canonical(site_conjugate(items)),
        site_conjugate(site_conjugate(items)) == items,
        site_span(site_conjugate(items)) == site_span(items),
        site_conjugate_sign(items) != Sign::Zero,
        site_conjugate_sign(site_conjugate(items)) == site_conjugate_sign(items),
        site_conjugate_sign(items).product(site_conjugate_sign(site_conjugate(items))) == Sign::Plus,
    decreases items.len(),
{
    let c = site_conjugate(items);
    assert forall|i: int| 0 <= i < items.len() implies (#[trigger] c[i]).0 == items[i].0 && (c[i].1
        == S::identity()) == (items[i].1 == S::identity()) && c[i].1.adjoint() == items[i].1 by {
        S::lemma_adjoint(items[i].1);
    }
    assert(site_conjugate(c) =~= items);
    assert(sites(c) =~= sites(items));
    if site_canonical(items) {
        assert forall|i: int, j: int| 0 <= i < j < c.len() implies (#[trigger] c[i]).0 < (
        #[trigger] c[j]).0 by {
            assert(items[i].0 < items[j].0);
        }
        assert forall|i: int| 0 <= i < c.len() implies (#[trigger] c[i]).1 != S::identity() && c[i].0
            < usize::MAX by {
            assert(items[i].1 != S::identity());
        }
    }
    if items.len() > 0 {
        lemma_site_conjugate_twice(items.drop_last());
        S::lemma_adjoint(items.last().1);
        assert(c.drop_last() =~= site_conjugate(items.drop_last()));
        assert(c.last().1 == items.last().1.adjoint());
    }
}

impl<S: SiteSymbol> SiteProduct<S> {
    /// The adjoint of the product, and the sign that goes with it: the
    /// adjoint of the operator on each site, and the signs of these
    /// multiplied.
    pub fn hermitian_conjugate(&self) -> (r: (Self, Sign))
        ensures
            r.0@ == site_conjugate(self@),
            r.1 == site_conjugate_sign(self@),
    {
        proof {
            use_type_invariant(self);
            lemma_site_conjugate_twice(self@);
        }
        let mut items: Vec<(usize, S)> = Vec::new();
        let mut sign = Sign::Plus;
        let mut i: usize = 0;
        assert(self@.take(0) =~= Seq::<(usize, S)>::empty());
        while i < self.items.len()
            invariant
                i <= self.items.len(),
                items@ =~= site_conjugate(self@.take(i as int)),
                sign == site_conjugate_sign(self@.take(i as int)),
            decreases self.items.len() - i,
        {
            proof {
                assert(self@.take(i + 1).drop_last() =~= self@.take(i as int));
            }
            let (symbol, factor) = self.items[i].1.symbol_adjoint();
            items.push((self.items[i].0, symbol));
            sign = sign.times(factor);
            i += 1;
        }
        assert(self@.take(i as int) =~= self@);
        (SiteProduct { items }, sign)
    }

    /// Whether the product is its own adjoint.
    pub fn is_natural_hermitian(&self) -> (b: bool)
        ensures
            b == (site_conjugate(self@) == self@ && site_conjugate_sign(self@) == Sign::Plus),
    {
        let (other, sign) = self.hermitian_conjugate();
        match sign {
            Sign::Plus => self.same_key(&other),
            _ => false,
        }
    }

    /// The product with the given entries, which are in canonical form.
    pub(crate) fn from_canonical(items: Vec<(usize, S)>) -> (r: Self)
        requires
            site_canonical(items@),
        ensures
            r@ == items@,
    {
        SiteProduct { items }
    }
}

/// The entries of a product with each site relabelled.
pub open spec fn relabelled_sites<S: SiteSymbol>(
    items: Seq<(usize, S)>,
    mapping: Map<usize, usize>,
) -> Seq<(usize, S)> {
    Seq::new(items.len(), |k: int| (crate::modes::relabelled(items[k].0, mapping), items[k].1))
}

impl<S: SiteSymbol> SiteProduct<S> {
    /// The product with its sites relabelled: each site that the mapping
    /// names gets the index that the mapping gives it, and the product is
    /// built up again from the entries.
    ///
    /// Fails with `InvalidIndex` where the entries fit no product: where
    /// the mapping gives two sites with different operators one index, or a
    /// site the largest number of the machine.
    pub fn remap_qubits(&self, mapping: &HashMap<usize, usize>) -> (r: Result<Self, StruqtureError>)
        ensures
            match assembled(relabelled_sites(self@, mapping@)) {
                Some(items) => r.is_ok() && r.unwrap()@ == items,
                None => r == Err::<Self, StruqtureError>(StruqtureError::InvalidIndex),
            },
    {
        let mut raw: Vec<(usize, S)> = Vec::new();
        let mut i: usize = 0;
        while i < self.items.len()
            invariant
                i <= self.items.len(),
                raw@.len() == i,
                forall|k: int|
                    0 <= k < i ==> raw@[k] == (
                        crate::modes::relabelled(self@[k].0, mapping@),
                        self@[k].1,
                    ),
            decreases self.items.len() - i,
        {
            raw.push((crate::modes::relabel_index(self.items[i].0, mapping), self.items[i].1));
            i += 1;
        }
        assert(raw@ =~= relabelled_sites(self@, mapping@));
        SiteProduct::create(raw.as_slice())
    }
}

impl<S: SiteSymbol> ConjugateKey for SiteProduct<S> {
    open spec fn conjugate(v: Seq<(usize, S)>) -> Seq<(usize, S)> {
        site_conjugate(v)
    }

    open spec fn conjugate_sign(v: Seq<(usize, S)>) -> Sign {
        site_conjugate_sign(v)
    }

    open spec fn natural_hermitian(v: Seq<(usize, S)>) -> bool {
        site_conjugate(v) == v && site_conjugate_sign(v) == Sign::Plus
    }

    proof fn lemma_conjugate_span(v: Seq<(usize, S)>) {
        lemma_site_conjugate_twice(v);
    }

    fn key_conjugate(&self) -> (r: (Self, Sign)) {
        self.hermitian_conjugate()
    }

    fn key_is_natural_hermitian(&self) -> (b: bool) {
        self.is_natural_hermitian()
    }
}

impl<S: LetterSymbol> SiteProduct<S> {
    /// Reads a product from its text: each site followed by the letter of
    /// its operator, or `I` alone for the identity.
    ///
    /// Fails with `ParseMismatch` where the text is no such row or a letter
    /// is none of `I`, `X`, `Y`, `Z`, and with `InvalidIndex` where the
    /// entries fit no product.
    pub fn from_str(text: &str) -> (r: Result<Self, StruqtureError>)
        ensures
            match parse_site_text::<S>(text@) {
                None => r == Err::<Self, StruqtureError>(StruqtureError::ParseMismatch),
                Some(raw) => match assembled(raw) {
                    Some(items) => r.is_ok() && r.unwrap()@ == items,
                    None => r == Err::<Self, StruqtureError>(StruqtureError::InvalidIndex),
                },
            },
            r.is_ok() <==> product_of_text::<S>(text@).is_some(),
            r.is_ok() ==> product_of_text::<S>(text@) == Some(r.unwrap()@),
    {
        if text.unicode_len() == 1 && text.get_char(0) == 'I' {
            assert(text@ =~= seq!['I']);
            return Ok(SiteProduct::new());
        }
        assert(!(text@ =~= seq!['I']));
        let tokens = match scan_tokens(text, true) {
            Some(tokens) => tokens,
            None => {
                return Err(StruqtureError::ParseMismatch);
            },
        };
        let mut raw: Vec<(usize, S)> = Vec::new();
        let mut i: usize = 0;
        while i < tokens.len()
            invariant
                i <= tokens.len(),
                raw@.len() == i,
                scan(text@, true) == Some(tokens@),
                !(text@ =~= seq!['I']),
                forall|k: int|
                    0 <= k < i ==> S::of_letter((#[trigger] tokens@[k]).0) == Some(
                        raw@[k].1,
                    ) && raw@[k].0 == tokens@[k].1,
            decreases tokens.len() - i,
        {
            match S::from_char(tokens[i].0) {
                None => {
                    assert(S::of_letter(tokens@[i as int].0).is_none());
                    return Err(StruqtureError::ParseMismatch);
                },
                Some(p) => {
                    raw.push((tokens[i].1, p));
                },
            }
            i += 1;
        }
        assert(raw@ =~= entries_of_tokens::<S>(tokens@).unwrap());
        SiteProduct::create(raw.as_slice())
    }

    /// The text of the product: each site followed by the letter of its
    /// operator; `I` for the identity.
    pub fn to_string(&self) -> (text: String)
        ensures
            text@ == site_text(self@),
    {
        let mut text = String::new();
        if self.items.len() == 0 {
            push_char(&mut text, 'I');
            assert(text@ =~= seq!['I']);
            return text;
        }
        let ghost tokens = site_tokens(self@);
        let mut i: usize = 0;
        assert(tokens.take(0) =~= Seq::<(char, usize)>::empty());
        while i < self.items.len()
            invariant
                i <= self.items.len(),
                tokens == site_tokens(self@),
                text@ == render(tokens.take(i as int), true),
            decreases self.items.len() - i,
        {
            proof {
                lemma_render_push(tokens.take(i as int), tokens[i as int], true);
                assert(tokens.take(i + 1) =~= tokens.take(i as int).push(tokens[i as int]));
            }
            push_token(&mut text, self.items[i].1.to_char(), self.items[i].0, true);
            i += 1;
        }
        assert(tokens.take(i as int) =~= tokens);
        text
    }
}

impl<S: LetterSymbol> TextKey for SiteProduct<S> {
    open spec fn arity() -> nat {
        1
    }

    open spec fn canonical(v: Seq<(usize, S)>) -> bool {
        site_canonical(v)
    }

    open spec fn texts(v: Seq<(usize, S)>) -> Seq<Seq<char>> {
        seq![site_text(v)]
    }

    open spec fn of_texts(texts: Seq<Seq<char>>) -> Option<Seq<(usize, S)>> {
        if texts.len() == 1 {
            product_of_text::<S>(texts[0])
        } else {
            None
        }
    }

    proof fn lemma_texts(v: Seq<(usize, S)>) {
        lemma_site_text_round_trip(v);
    }

    open spec fn family() -> Seq<char> {
        S::family()
    }

    fn key_family() -> (r: String) {
        S::symbol_family()
    }

    fn key_arity() -> (n: usize) {
        1
    }

    fn key_texts(&self) -> (r: Vec<String>) {
        let mut r: Vec<String> = Vec::new();
        let text = self.to_string();
        let _ = self.len();
        r.push(text);
        assert(texts_view(r@) =~= seq![site_text(self@)]);
        r
    }

    fn key_from_texts(texts: &Vec<String>, from: usize) -> (r: Option<Self>) {
        assert(texts_view(texts@).subrange(from as int, from + 1)[0] == texts@[from as int]@);
        match SiteProduct::<S>::from_str(texts[from].as_str()) {
            Ok(key) => Some(key),
            Err(_) => None,
        }
    }
}

impl<S: LetterSymbol> SingleTextKey for SiteProduct<S> {
    proof fn lemma_single() {
    }
}

/// The numbers that stand for the operators of a product.
pub open spec fn codes<S: SiteSymbol>(items: Seq<(usize, S)>) -> Seq<usize> {
    Seq::new(items.len(), |i: int| items[i].1.code())
}

/// The entries that a list of sites and a list of numbers for operators
/// describe, where each number stands for an operator.
pub open spec fn entries_of_rows<S: SiteSymbol>(sites: Seq<usize>, codes: Seq<usize>) -> Option<
    Seq<(usize, S)>,
> {
    if sites.len() == codes.len() && forall|i: int|
        0 <= i < codes.len() ==> S::of_code(#[trigger] codes[i]).is_some() {
        Some(Seq::new(sites.len(), |i: int| (sites[i], S::of_code(codes[i]).unwrap())))
    } else {
        None
    }
}

/// The product that a list of sites and a list of numbers for operators
/// describe, where they describe one.
pub open spec fn product_of_rows<S: SiteSymbol>(sites: Seq<usize>, codes: Seq<usize>) -> Option<
    Seq<(usize, S)>,
> {
    match entries_of_rows::<S>(sites, codes) {
        Some(raw) => assembled(raw),
        None => None,
    }
}

impl<S: SiteSymbol> CompactKey for SiteProduct<S> {
    open spec fn row_count() -> nat {
        2
    }

    open spec fn compact_canonical(v: Seq<(usize, S)>) -> bool {
        site_canonical(v)
    }

    open spec fn rows(v: Seq<(usize, S)>) -> Seq<Seq<usize>> {
        seq![sites(v), codes(v)]
    }

    open spec fn of_rows(rows: Seq<Seq<usize>>) -> Option<Seq<(usize, S)>> {
        if rows.len() == 2 {
            product_of_rows::<S>(rows[0], rows[1])
        } else {
            None
        }
    }

    proof fn lemma_rows(v: Seq<(usize, S)>) {
        lemma_assembled_canonical(v);
        assert forall|i: int| 0 <= i < codes(v).len() implies S::of_code(
            #[trigger] codes(v)[i],
        ).is_some() by {
            S::lemma_code(v[i].1);
        }
        assert(entries_of_rows::<S>(sites(v), codes(v)).unwrap() =~= v) by {
            assert forall|i: int| 0 <= i < v.len() implies S::of_code(codes(v)[i]).unwrap()
                == v[i].1 by {
                S::lemma_code(v[i].1);
            }
        }
    }

    fn key_row_count() -> (n: usize) {
        2
    }

    fn key_rows(&self) -> (r: Vec<Vec<usize>>) {
        let n = self.len();
        let mut site_row: Vec<usize> = Vec::new();
        let mut code_row: Vec<usize> = Vec::new();
        let mut i: usize = 0;
        while i < n
            invariant
                i <= n,
                n == self@.len(),
                site_row@.len() == i,
                code_row@.len() == i,
                forall|k: int| 0 <= k < i ==> site_row@[k] == self@[k].0,
                forall|k: int| 0 <= k < i ==> code_row@[k] == self@[k].1.code(),
            decreases n - i,
        {
            let (site, symbol) = self.item(i);
            site_row.push(site);
            code_row.push(symbol.symbol_code());
            i += 1;
        }
        assert(site_row@ =~= sites(self@));
        assert(code_row@ =~= codes(self@));
        let mut r: Vec<Vec<usize>> = Vec::new();
        r.push(site_row);
        r.push(code_row);
        assert(rows_view(r@) =~= seq![sites(self@), codes(self@)]);
        r
    }

    fn key_from_rows(rows: &Vec<Vec<usize>>, from: usize) -> (r: Option<Self>) {
        let count = rows.len();
        assert(Self::row_count() == 2);
        assert(from + 2 <= count);
        assert(rows_view(rows@).len() == rows@.len());
        let ghost target = rows_view(rows@).subrange(from as int, from + 2);
        assert(target[0] == rows@[from as int]@);
        assert(target[1] == rows@[from + 1]@);
        let site_row = &rows[from];
        let code_row = &rows[from + 1];
        if site_row.len() != code_row.len() {
            return None;
        }
        let mut raw: Vec<(usize, S)> = Vec::new();
        let mut i: usize = 0;
        while i < site_row.len()
            invariant
                i <= site_row.len(),
                site_row.len() == code_row.len(),
                target == rows_view(rows@).subrange(from as int, from + Self::row_count()),
                target.len() == 2,
                target[0] == site_row@,
                target[1] == code_row@,
                raw@.len() == i,
                forall|k: int|
                    0 <= k < i ==> S::of_code(#[trigger] code_row@[k]) == Some(raw@[k].1) && raw@[k].0
                        == site_row@[k],
            decreases site_row.len() - i,
        {
            match S::symbol_from_code(code_row[i]) {
                Some(symbol) => {
                    raw.push((site_row[i], symbol));
                },
                None => {
                    assert(S::of_code(code_row@[i as int]).is_none());
                    return None;
                },
            }
            i += 1;
        }
        assert(raw@ =~= entries_of_rows::<S>(site_row@, code_row@).unwrap());
        match SiteProduct::create(raw.as_slice()) {
            Ok(key) => Some(key),
            Err(_) => None,
        }
    }
}

impl<S: SiteSymbol> TwoRowKey for SiteProduct<S> {
    proof fn lemma_two_rows() {
    }
}

} // verus!
