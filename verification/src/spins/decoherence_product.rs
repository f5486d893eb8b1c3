//! Products of the operators X, iY and Z, which label Lindblad noise terms
//! of spins.

use crate::sign::Sign;
use crate::error::StruqtureError;
use crate::key::{texts_view, SingleTextKey, TextKey};
use crate::site_product::{
    assembled, lemma_site_text_round_trip, parse_site_text, product_of_text, site_canonical, site_text,
    site_tokens, with_symbol, LetterSymbol, SiteProduct, SiteSymbol,
};
use crate::spins::pauli_product::{PauliItems, PauliProduct, SingleSpinOperator};
use crate::text::{is_digit, lemma_render_chars};
use crate::text::push_char;
use vstd::prelude::*;

verus! {

/// One of the operators X, iY and Z on one site, or the identity. With iY in
/// place of Y, products of these operators have real matrices.
#[derive(Clone, Copy, Debug, PartialEq, Eq, Structural, Hash, PartialOrd, Ord)]
pub enum SingleDecoherenceOperator {
    Identity,
    X,
    IY,
    Z,
}

impl SiteSymbol for SingleDecoherenceOperator {
    open spec fn identity() -> Self {
        SingleDecoherenceOperator::Identity
    }

    open spec fn adjoint(self) -> Self {
        self
    }

    open spec fn adjoint_sign(self) -> Sign {
        match self {
            SingleDecoherenceOperator::IY => Sign::Minus,
            _ => Sign::Plus,
        }
    }

    proof fn lemma_adjoint(s: Self) {
    }

    open spec fn code(self) -> usize {
        match self {
            SingleDecoherenceOperator::Identity => 0,
            SingleDecoherenceOperator::X => 1,
            SingleDecoherenceOperator::IY => 2,
            SingleDecoherenceOperator::Z => 3,
        }
    }

    open spec fn of_code(code: usize) -> Option<Self> {
        if code == 0 {
            Some(SingleDecoherenceOperator::Identity)
        } else if code == 1 {
            Some(SingleDecoherenceOperator::X)
        } else if code == 2 {
            Some(SingleDecoherenceOperator::IY)
        } else if code == 3 {
            Some(SingleDecoherenceOperator::Z)
        } else {
            None
        }
    }

    proof fn lemma_code(s: Self) {
    }

    fn symbol_code(&self) -> (c: usize) {
        match self {
            SingleDecoherenceOperator::Identity => 0,
            SingleDecoherenceOperator::X => 1,
            SingleDecoherenceOperator::IY => 2,
            SingleDecoherenceOperator::Z => 3,
        }
    }

    fn symbol_from_code(code: usize) -> (r: Option<Self>) {
        if code == 0 {
            Some(SingleDecoherenceOperator::Identity)
        } else if code == 1 {
            Some(SingleDecoherenceOperator::X)
        } else if code == 2 {
            Some(SingleDecoherenceOperator::IY)
        } else if code == 3 {
            Some(SingleDecoherenceOperator::Z)
        } else {
            None
        }
    }

    fn unit() -> (r: Self) {
        SingleDecoherenceOperator::Identity
    }

    fn symbol_is_identity(&self) -> (b: bool) {
        match self {
            SingleDecoherenceOperator::Identity => true,
            _ => false,
        }
    }

    fn same_symbol(&self, other: &Self) -> (b: bool) {
        *self == *other
    }

    fn symbol_adjoint(&self) -> (r: (Self, Sign)) {
        match self {
            SingleDecoherenceOperator::IY => (SingleDecoherenceOperator::IY, Sign::Minus),
            s => (*s, Sign::Plus),
        }
    }
}

/// A product of the operators X, iY and Z on distinct sites, in ascending
/// order of the sites.
pub type DecoherenceProduct = SiteProduct<SingleDecoherenceOperator>;

impl SiteProduct<SingleDecoherenceOperator> {
    /// The product with the operator X on a site.
    pub fn x(self, index: usize) -> (r: Self)
        ensures
            index < usize::MAX ==> r@ == with_symbol(self@, index, SingleDecoherenceOperator::X),
            index == usize::MAX ==> r@ == self@,
    {
        self.set_pauli(index, SingleDecoherenceOperator::X)
    }

    /// The product with the operator iY on a site.
    pub fn iy(self, index: usize) -> (r: Self)
        ensures
            index < usize::MAX ==> r@ == with_symbol(self@, index, SingleDecoherenceOperator::IY),
            index == usize::MAX ==> r@ == self@,
    {
        self.set_pauli(index, SingleDecoherenceOperator::IY)
    }

    /// The product with the operator Z on a site.
    pub fn z(self, index: usize) -> (r: Self)
        ensures
            index < usize::MAX ==> r@ == with_symbol(self@, index, SingleDecoherenceOperator::Z),
            index == usize::MAX ==> r@ == self@,
    {
        self.set_pauli(index, SingleDecoherenceOperator::Z)
    }
}

/// The text with `iY` in place of each `Y`.
pub open spec fn widen(s: Seq<char>) -> Seq<char>
    decreases s.len(),
{
    if s.len() == 0 {
        Seq::empty()
    } else if s[0] == 'Y' {
        seq!['i', 'Y'] + widen(s.drop_first())
    } else {
        seq![s[0]] + widen(s.drop_first())
    }
}

/// The text with `Y` in place of each `iY`. There is none where a `Y` does
/// not follow an `i`, or an `i` is not followed by a `Y`.
pub open spec fn narrow(s: Seq<char>) -> Option<Seq<char>>
    decreases s.len(),
{
    if s.len() == 0 {
        Some(Seq::empty())
    } else if s[0] == 'i' {
        if s.len() >= 2 && s[1] == 'Y' {
            match narrow(s.skip(2)) {
                Some(rest) => Some(seq!['Y'] + rest),
                None => None,
            }
        } else {
            None
        }
    } else if s[0] == 'Y' {
        None
    } else {
        match narrow(s.drop_first()) {
            Some(rest) => Some(seq![s[0]] + rest),
            None => None,
        }
    }
}

/// Taking `iY` for `Y` and `Y` for `iY` again gives a text without `i` back.
pub proof fn lemma_narrow_widen(s: Seq<char>)
    requires
        forall|k: int| 0 <= k < s.len() ==> s[k] != 'i',
    ensures
        narrow(widen(s)) == Some(s),
    decreases s.len(),
{
    if s.len() > 0 {
        let rest = s.drop_first();
        assert forall|k: int| 0 <= k < rest.len() implies rest[k] != 'i' by {
            assert(rest[k] == s[k + 1]);
        }
        lemma_narrow_widen(rest);
        let w = widen(s);
        if s[0] == 'Y' {
            assert(w =~= seq!['i', 'Y'] + widen(rest));
            assert(w.skip(2) =~= widen(rest));
            assert(seq!['Y'] + rest =~= s);
        } else {
            assert(w =~= seq![s[0]] + widen(rest));
            assert(w.drop_first() =~= widen(rest));
            assert(seq![s[0]] + rest =~= s);
        }
    }
}

/// The text with `iY` in place of each `Y`.
pub fn widen_text(text: &str) -> (r: String)
    ensures
        r@ == widen(text@),
{
    let n = text.unicode_len();
    let mut r = String::new();
    let mut i: usize = 0;
    assert(text@.skip(0) =~= text@);
    assert(r@ + widen(text@.skip(0)) =~= widen(text@));
    while i < n
        invariant
            i <= n,
            n == text@.len(),
            r@ + widen(text@.skip(i as int)) == widen(text@),
        decreases n - i,
    {
        let c = text.get_char(i);
        proof {
            let here = text@.skip(i as int);
            assert(here[0] == c);
            assert(here.drop_first() =~= text@.skip(i + 1));
        }
        let ghost before = r@;
        if c == 'Y' {
            push_char(&mut r, 'i');
            assert(r@ + seq!['Y'] + widen(text@.skip(i + 1)) =~= before + (seq!['i', 'Y'] + widen(
                text@.skip(i + 1),
            )));
        } else {
            assert(before.push(c) + widen(text@.skip(i + 1)) =~= before + (seq![c] + widen(
                text@.skip(i + 1),
            )));
        }
        let ghost middle = r@;
        push_char(&mut r, c);
        assert(r@ + widen(text@.skip(i + 1)) =~= middle + seq![c] + widen(text@.skip(i + 1)));
        i += 1;
    }
    assert(text@.skip(i as int) =~= Seq::<char>::empty());
    assert(r@ + Seq::<char>::empty() =~= r@);
    r
}

/// What is read of a text behind a beginning that was read already.
pub open spec fn narrow_behind(done: Seq<char>, rest: Seq<char>) -> Option<Seq<char>> {
    match narrow(rest) {
        Some(tail) => Some(done + tail),
        None => None,
    }
}

/// The text with `Y` in place of each `iY`, where there is one.
pub fn narrow_text(text: &str) -> (r: Option<String>)
    ensures
        match r {
            Some(t) => narrow(text@) == Some(t@),
            None => narrow(text@).is_none(),
        },
{
    let n = text.unicode_len();
    let mut r = String::new();
    let mut i: usize = 0;
    assert(text@.skip(0) =~= text@);
    assert(narrow(text@).is_some() ==> r@ + narrow(text@).unwrap() =~= narrow(text@).unwrap());
    while i < n
        invariant
            i <= n,
            n == text@.len(),
            narrow(text@) == narrow_behind(r@, text@.skip(i as int)),
        decreases n - i,
    {
        let c = text.get_char(i);
        let ghost here = text@.skip(i as int);
        let ghost before = r@;
        proof {
            assert(here[0] == c);
            assert(here.drop_first() =~= text@.skip(i + 1));
        }
        if c == 'i' {
            if i + 1 < n && text.get_char(i + 1) == 'Y' {
                proof {
                    assert(here[1] == 'Y');
                    assert(here.skip(2) =~= text@.skip(i + 2));
                    let tail = narrow(text@.skip(i + 2));
                    if tail.is_some() {
                        assert(before.push('Y') + tail.unwrap() =~= before + (seq!['Y']
                            + tail.unwrap()));
                    }
                }
                push_char(&mut r, 'Y');
                i += 2;
            } else {
                proof {
                    if here.len() >= 2 {
                        assert(here[1] == text@[i + 1]);
                    }
                }
                return None;
            }
        } else if c == 'Y' {
            return None;
        } else {
            proof {
                let tail = narrow(text@.skip(i + 1));
                if tail.is_some() {
                    assert(before.push(c) + tail.unwrap() =~= before + (seq![c] + tail.unwrap()));
                }
            }
            push_char(&mut r, c);
            i += 1;
        }
    }
    assert(text@.skip(i as int) =~= Seq::<char>::empty());
    assert(r@ + Seq::<char>::empty() =~= r@);
    Some(r)
}

/// The Pauli operator whose letter stands for an operator: `Y` for iY.
pub open spec fn pauli_of(s: SingleDecoherenceOperator) -> SingleSpinOperator {
    match s {
        SingleDecoherenceOperator::Identity => SingleSpinOperator::Identity,
        SingleDecoherenceOperator::X => SingleSpinOperator::X,
        SingleDecoherenceOperator::IY => SingleSpinOperator::Y,
        SingleDecoherenceOperator::Z => SingleSpinOperator::Z,
    }
}

/// The operator that the letter of a Pauli operator stands for: iY for `Y`.
pub open spec fn decoherence_of(s: SingleSpinOperator) -> SingleDecoherenceOperator {
    match s {
        SingleSpinOperator::Identity => SingleDecoherenceOperator::Identity,
        SingleSpinOperator::X => SingleDecoherenceOperator::X,
        SingleSpinOperator::Y => SingleDecoherenceOperator::IY,
        SingleSpinOperator::Z => SingleDecoherenceOperator::Z,
    }
}

/// The entries with the Pauli operators whose letters stand for the
/// operators.
pub open spec fn as_pauli(items: Seq<(usize, SingleDecoherenceOperator)>) -> PauliItems {
    Seq::new(items.len(), |i: int| (items[i].0, pauli_of(items[i].1)))
}

/// The entries with the operators that the letters of the Pauli operators
/// stand for.
pub open spec fn as_decoherence(items: PauliItems) -> Seq<(usize, SingleDecoherenceOperator)> {
    Seq::new(items.len(), |i: int| (items[i].0, decoherence_of(items[i].1)))
}

/// The text of a product: `I` for the product of nothing, else each site
/// followed by `X`, `iY` or `Z`.
pub open spec fn decoherence_text(items: Seq<(usize, SingleDecoherenceOperator)>) -> Seq<char> {
    widen(site_text::<SingleSpinOperator>(as_pauli(items)))
}

/// The product that a text names, where it names one: the text with `Y`
/// in place of each `iY` names a product of Pauli operators, whose letters
/// stand for the operators of the product.
pub open spec fn decoherence_of_text(text: Seq<char>) -> Option<
    Seq<(usize, SingleDecoherenceOperator)>,
> {
    match narrow(text) {
        Some(plain) => match product_of_text::<SingleSpinOperator>(plain) {
            Some(items) => Some(as_decoherence(items)),
            None => None,
        },
        None => None,
    }
}

/// Reading the text of a canonical product gives the product back.
pub proof fn lemma_decoherence_text_round_trip(items: Seq<(usize, SingleDecoherenceOperator)>)
    requires
        site_canonical(items),
    ensures
        decoherence_of_text(decoherence_text(items)) == Some(items),
{
    let paulis = as_pauli(items);
    assert(site_canonical(paulis));
    let plain = site_text::<SingleSpinOperator>(paulis);
    assert forall|k: int| 0 <= k < plain.len() implies plain[k] != 'i' by {
        if paulis.len() > 0 {
            let tokens = site_tokens(paulis);
            lemma_render_chars(tokens, true);
            if !is_digit(plain[k]) {
                let i = choose|i: int| 0 <= i < tokens.len() && (#[trigger] tokens[i]).0 == plain[k];
                assert(tokens[i].0 == paulis[i].1.letter());
            }
        }
    }
    lemma_narrow_widen(plain);
    lemma_site_text_round_trip(paulis);
    assert(as_decoherence(paulis) =~= items);
}

impl SiteProduct<SingleDecoherenceOperator> {
    /// The product of Pauli operators whose letters stand for the operators
    /// of this product.
    fn with_pauli_letters(&self) -> (r: PauliProduct)
        ensures
            r@ == as_pauli(self@),
    {
        let n = self.len();
        let mut entries: Vec<(usize, SingleSpinOperator)> = Vec::new();
        let mut i: usize = 0;
        while i < n
            invariant
                i <= n,
                n == self@.len(),
                entries@.len() == i,
                forall|k: int| 0 <= k < i ==> (#[trigger] entries@[k]) == as_pauli(self@)[k],
            decreases n - i,
        {
            let (site, symbol) = self.item(i);
            let letter = match symbol {
                SingleDecoherenceOperator::Identity => SingleSpinOperator::Identity,
                SingleDecoherenceOperator::X => SingleSpinOperator::X,
                SingleDecoherenceOperator::IY => SingleSpinOperator::Y,
                SingleDecoherenceOperator::Z => SingleSpinOperator::Z,
            };
            entries.push((site, letter));
            i += 1;
        }
        assert(entries@ =~= as_pauli(self@));
        PauliProduct::from_canonical(entries)
    }

    /// The product with the operators that the letters of a product of
    /// Pauli operators stand for.
    fn of_pauli_letters(paulis: &PauliProduct) -> (r: Self)
        ensures
            r@ == as_decoherence(paulis@),
    {
        let n = paulis.len();
        let mut entries: Vec<(usize, SingleDecoherenceOperator)> = Vec::new();
        let mut i: usize = 0;
        while i < n
            invariant
                i <= n,
                n == paulis@.len(),
                entries@.len() == i,
                forall|k: int| 0 <= k < i ==> (#[trigger] entries@[k]) == as_decoherence(paulis@)[k],
            decreases n - i,
        {
            let (site, letter) = paulis.item(i);
            let symbol = match letter {
                SingleSpinOperator::Identity => SingleDecoherenceOperator::Identity,
                SingleSpinOperator::X => SingleDecoherenceOperator::X,
                SingleSpinOperator::Y => SingleDecoherenceOperator::IY,
                SingleSpinOperator::Z => SingleDecoherenceOperator::Z,
            };
            entries.push((site, symbol));
            i += 1;
        }
        assert(entries@ =~= as_decoherence(paulis@));
        SiteProduct::from_canonical(entries)
    }

    /// The text of the product: each site followed by `X`, `iY` or `Z`; `I`
    /// for the identity.
    pub fn to_string(&self) -> (text: String)
        ensures
            text@ == decoherence_text(self@),
    {
        let plain = self.with_pauli_letters().to_string();
        widen_text(plain.as_str())
    }

    /// Reads a product from its text: each site followed by `X`, `iY` or
    /// `Z`, or `I` alone for the identity.
    ///
    /// Fails with `ParseMismatch` where the text is no such row, and with
    /// `InvalidIndex` where the entries fit no product.
    pub fn from_str(text: &str) -> (r: Result<Self, StruqtureError>)
        ensures
            match narrow(text@) {
                None => r == Err::<Self, StruqtureError>(StruqtureError::ParseMismatch),
                Some(plain) => match parse_site_text::<SingleSpinOperator>(plain) {
                    None => r == Err::<Self, StruqtureError>(StruqtureError::ParseMismatch),
                    Some(raw) => match assembled(raw) {
                        Some(items) => r.is_ok() && r.unwrap()@ == as_decoherence(items),
                        None => r == Err::<Self, StruqtureError>(StruqtureError::InvalidIndex),
                    },
                },
            },
            r.is_ok() <==> decoherence_of_text(text@).is_some(),
            r.is_ok() ==> decoherence_of_text(text@) == Some(r.unwrap()@),
    {
        let plain = match narrow_text(text) {
            Some(plain) => plain,
            None => {
                return Err(StruqtureError::ParseMismatch);
            },
        };
        match PauliProduct::from_str(plain.as_str()) {
            Ok(paulis) => Ok(Self::of_pauli_letters(&paulis)),
            Err(e) => Err(e),
        }
    }
}

impl TextKey for SiteProduct<SingleDecoherenceOperator> {
    open spec fn arity() -> nat {
        1
    }

    open spec fn canonical(v: Seq<(usize, SingleDecoherenceOperator)>) -> bool {
        site_canonical(v)
    }

    open spec fn texts(v: Seq<(usize, SingleDecoherenceOperator)>) -> Seq<Seq<char>> {
        seq![decoherence_text(v)]
    }

    open spec fn of_texts(texts: Seq<Seq<char>>) -> Option<Seq<(usize, SingleDecoherenceOperator)>> {
        if texts.len() == 1 {
            decoherence_of_text(texts[0])
        } else {
            None
        }
    }

    proof fn lemma_texts(v: Seq<(usize, SingleDecoherenceOperator)>) {
        lemma_decoherence_text_round_trip(v);
    }

    open spec fn family() -> Seq<char> {
        "Spin"@
    }

    fn key_family() -> (r: String) {
        "Spin".to_owned()
    }

    fn key_arity() -> (n: usize) {
        1
    }

    fn key_texts(&self) -> (r: Vec<String>) {
        let mut r: Vec<String> = Vec::new();
        let text = self.to_string();
        let _ = self.len();
        r.push(text);
        assert(texts_view(r@) =~= seq![decoherence_text(self@)]);
        r
    }

    fn key_from_texts(texts: &Vec<String>, from: usize) -> (r: Option<Self>) {
        assert(texts_view(texts@).subrange(from as int, from + 1)[0] == texts@[from as int]@);
        match Self::from_str(texts[from].as_str()) {
            Ok(key) => Some(key),
            Err(_) => None,
        }
    }
}

impl SingleTextKey for SiteProduct<SingleDecoherenceOperator> {
    proof fn lemma_single() {
    }
}

} // verus!
