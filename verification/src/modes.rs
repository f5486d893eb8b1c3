//! What bosonic and fermionic products share: two lists of mode indices, one
//! for the creation operators and one for the annihilation operators, and the
//! text `c0c1a0a2` that stands for them.

use crate::indices::{bounded, span};
use crate::sign::Sign;
use crate::text::{
    lemma_decimal, lemma_scan_render, push_char, push_token, render, render_token, scan,
    scan_tokens,
};
use std::collections::HashMap;
use vstd::prelude::*;

verus! {

/// A product of creation and annihilation operators as two index lists.
pub ghost struct ModeLists {
    pub creators: Seq<usize>,
    pub annihilators: Seq<usize>,
}

/// The tokens of a product: a `c` for each creator, then an `a` for each
/// annihilator.
pub open spec fn mode_tokens(lists: ModeLists) -> Seq<(char, usize)> {
    lists.creators.map_values(|i: usize| ('c', i)) + lists.annihilators.map_values(
        |i: usize| ('a', i),
    )
}

/// The text of a product: `I` for the product of nothing, else its tokens.
pub open spec fn mode_text(lists: ModeLists) -> Seq<char> {
    if lists.creators.len() == 0 && lists.annihilators.len() == 0 {
        seq!['I']
    } else {
        render(mode_tokens(lists), false)
    }
}

/// How many tokens at the start of a row are creators.
pub open spec fn leading_creators(tokens: Seq<(char, usize)>) -> nat
    decreases tokens.len(),
{
    if tokens.len() > 0 && tokens[0].0 == 'c' {
        1 + leading_creators(tokens.drop_first())
    } else {
        0
    }
}

/// The index lists that a row of tokens describes: creators first, then
/// annihilators, and no other symbol.
pub open spec fn lists_of_tokens(tokens: Seq<(char, usize)>) -> Option<ModeLists> {
    let k = leading_creators(tokens) as int;
    if forall|i: int| k <= i < tokens.len() ==> (#[trigger] tokens[i]).0 == 'a' {
        Some(
            ModeLists {
                creators: tokens.take(k).map_values(|t: (char, usize)| t.1),
                annihilators: tokens.skip(k).map_values(|t: (char, usize)| t.1),
            },
        )
    } else {
        None
    }
}

/// The index lists that a text describes, in the order of the text.
pub open spec fn parse_mode_text(s: Seq<char>) -> Option<ModeLists> {
    if s =~= seq!['I'] {
        Some(ModeLists { creators: Seq::empty(), annihilators: Seq::empty() })
    } else {
        match scan(s, false) {
            Some(tokens) => lists_of_tokens(tokens),
            None => None,
        }
    }
}

/// A row of tokens that starts with `k` creators and goes on with something
/// else has exactly `k` leading creators.
pub proof fn lemma_leading_creators(tokens: Seq<(char, usize)>, k: int)
    requires
        0 <= k <= tokens.len(),
        forall|i: int| 0 <= i < k ==> (#[trigger] tokens[i]).0 == 'c',
        k < tokens.len() ==> tokens[k].0 != 'c',
    ensures
        leading_creators(tokens) == k,
    decreases k,
{
    if k > 0 {
        lemma_leading_creators(tokens.drop_first(), k - 1);
    }
}

/// The text of a row of tokens with one more token at its end is the text
/// of the row followed by the text of the token.
pub proof fn lemma_render_push(tokens: Seq<(char, usize)>, token: (char, usize), number_first: bool)
    ensures
        render(tokens.push(token), number_first) =~= render(tokens, number_first) + render_token(
            token,
            number_first,
        ),
    decreases tokens.len(),
{
    let all = tokens.push(token);
    if tokens.len() == 0 {
        assert(all.drop_first() =~= Seq::<(char, usize)>::empty());
        assert(render(all.drop_first(), number_first) =~= Seq::<char>::empty());
    } else {
        assert(all.drop_first() =~= tokens.drop_first().push(token));
        lemma_render_push(tokens.drop_first(), token, number_first);
    }
}

/// Reading the text of a product gives its index lists back.
pub proof fn lemma_parse_mode_text(lists: ModeLists)
    ensures
        parse_mode_text(mode_text(lists)) == Some(lists),
{
    let tokens = mode_tokens(lists);
    let k = lists.creators.len() as int;
    if lists.creators.len() == 0 && lists.annihilators.len() == 0 {
        assert(lists.creators =~= Seq::empty());
        assert(lists.annihilators =~= Seq::empty());
    } else {
        assert(tokens.len() > 0);
        let text = render(tokens, false);
        assert(text.len() >= 2) by {
            lemma_decimal(tokens[0].1 as nat);
            assert(text =~= render_token(tokens[0], false) + render(tokens.drop_first(), false));
        }
        assert(!(text =~= seq!['I']));
        lemma_scan_render(tokens, false);
        lemma_leading_creators(tokens, k);
        assert(tokens.take(k).map_values(|t: (char, usize)| t.1) =~= lists.creators);
        assert(tokens.skip(k).map_values(|t: (char, usize)| t.1) =~= lists.annihilators);
    }
}

/// Writes the text of a product with the given index lists.
pub fn format_modes(creators: &[usize], annihilators: &[usize]) -> (text: String)
    ensures
        text@ == mode_text(ModeLists { creators: creators@, annihilators: annihilators@ }),
{
    let mut text = String::new();
    if creators.len() == 0 && annihilators.len() == 0 {
        push_char(&mut text, 'I');
        assert(text@ =~= seq!['I']);
        return text;
    }
    let ghost lists = ModeLists { creators: creators@, annihilators: annihilators@ };
    let ghost tokens = mode_tokens(lists);
    let mut i: usize = 0;
    assert(tokens.take(0) =~= Seq::<(char, usize)>::empty());
    while i < creators.len()
        invariant
            i <= creators.len(),
            tokens == mode_tokens(lists),
            lists.creators == creators@,
            lists.annihilators == annihilators@,
            text@ == render(tokens.take(i as int), false),
        decreases creators.len() - i,
    {
        proof {
            lemma_render_push(tokens.take(i as int), tokens[i as int], false);
            assert(tokens.take(i + 1) =~= tokens.take(i as int).push(tokens[i as int]));
        }
        push_token(&mut text, 'c', creators[i], false);
        i += 1;
    }
    let mut j: usize = 0;
    while j < annihilators.len()
        invariant
            j <= annihilators.len(),
            i == creators.len(),
            tokens == mode_tokens(lists),
            lists.creators == creators@,
            lists.annihilators == annihilators@,
            text@ == render(tokens.take(i + j), false),
        decreases annihilators.len() - j,
    {
        proof {
            lemma_render_push(tokens.take(i + j), tokens[i + j], false);
            assert(tokens.take(i + j + 1) =~= tokens.take(i + j).push(tokens[i + j]));
        }
        push_token(&mut text, 'a', annihilators[j], false);
        j += 1;
    }
    assert(tokens.take(i + j) =~= tokens);
    text
}

/// Reads a text as the index lists of a product, in the order of the text.
///
/// Returns `None` where the text is neither `I` nor a row of `c` tokens
/// followed by a row of `a` tokens.
pub fn parse_modes(text: &str) -> (r: Option<(Vec<usize>, Vec<usize>)>)
    ensures
        match r {
            Some(lists) => parse_mode_text(text@) == Some(
                ModeLists { creators: lists.0@, annihilators: lists.1@ },
            ),
            None => parse_mode_text(text@).is_none(),
        },
{
    let mut creators: Vec<usize> = Vec::new();
    let mut annihilators: Vec<usize> = Vec::new();
    if text.unicode_len() == 1 && text.get_char(0) == 'I' {
        assert(text@ =~= seq!['I']);
        return Some((creators, annihilators));
    }
    assert(!(text@ =~= seq!['I']));
    let tokens = match scan_tokens(text, false) {
        Some(tokens) => tokens,
        None => {
            return None;
        },
    };
    let mut i: usize = 0;
    while i < tokens.len() && tokens[i].0 == 'c'
        invariant
            i <= tokens.len(),
            forall|k: int| 0 <= k < i ==> (#[trigger] tokens@[k]).0 == 'c',
            creators@ =~= tokens@.take(i as int).map_values(|t: (char, usize)| t.1),
        decreases tokens.len() - i,
    {
        creators.push(tokens[i].1);
        i += 1;
    }
    proof {
        lemma_leading_creators(tokens@, i as int);
    }
    let split = i;
    while i < tokens.len()
        invariant
            split <= i <= tokens.len(),
            leading_creators(tokens@) == split,
            scan(text@, false) == Some(tokens@),
            !(text@ =~= seq!['I']),
            forall|k: int| split <= k < i ==> (#[trigger] tokens@[k]).0 == 'a',
            annihilators@ =~= tokens@.subrange(split as int, i as int).map_values(
                |t: (char, usize)| t.1,
            ),
        decreases tokens.len() - i,
    {
        if tokens[i].0 != 'a' {
            assert(tokens@[i as int].0 != 'a');
            return None;
        }
        annihilators.push(tokens[i].1);
        i += 1;
    }
    assert(tokens@.subrange(split as int, i as int) =~= tokens@.skip(split as int));
    Some((creators, annihilators))
}

/// Whether two index lists hold the same indices in the same order.
pub fn lists_equal(a: &[usize], b: &[usize]) -> (r: bool)
    ensures
        r == (a@ == b@),
{
    if a.len() != b.len() {
        return false;
    }
    let mut i: usize = 0;
    while i < a.len()
        invariant
            i <= a.len(),
            a.len() == b.len(),
            forall|k: int| 0 <= k < i ==> a@[k] == b@[k],
        decreases a.len() - i,
    {
        if a[i] != b[i] {
            return false;
        }
        i += 1;
    }
    assert(a@ =~= b@);
    true
}

/// A copy of an index list.
pub fn copy_list(a: &[usize]) -> (r: Vec<usize>)
    ensures
        r@ == a@,
{
    let mut r: Vec<usize> = Vec::new();
    let mut i: usize = 0;
    while i < a.len()
        invariant
            i <= a.len(),
            r@ =~= a@.take(i as int),
        decreases a.len() - i,
    {
        r.push(a[i]);
        i += 1;
    }
    assert(a@.take(i as int) =~= a@);
    r
}

/// One more than the largest index of a list, or 0 for the empty list.
pub fn list_span(a: &[usize]) -> (r: usize)
    requires
        bounded(a@),
    ensures
        r == span(a@),
{
    let mut best: usize = 0;
    let mut i: usize = 0;
    assert(a@.take(0) =~= Seq::<usize>::empty());
    while i < a.len()
        invariant
            i <= a.len(),
            bounded(a@),
            best == span(a@.take(i as int)),
        decreases a.len() - i,
    {
        proof {
            assert(a@.take(i + 1).drop_last() =~= a@.take(i as int));
        }
        if a[i] + 1 > best {
            best = a[i] + 1;
        }
        i += 1;
    }
    assert(a@.take(i as int) =~= a@);
    best
}

/// Whether every index of a list is below the largest that the machine has.
pub fn list_is_bounded(a: &[usize]) -> (r: bool)
    ensures
        r == bounded(a@),
{
    let mut i: usize = 0;
    while i < a.len()
        invariant
            i <= a.len(),
            forall|k: int| 0 <= k < i ==> (#[trigger] a@[k]) < usize::MAX,
        decreases a.len() - i,
    {
        if a[i] == usize::MAX {
            return false;
        }
        i += 1;
    }
    true
}

/// A list that holds the same indices as a bounded list is bounded.
pub proof fn lemma_bounded_by_members(r: Seq<usize>, raw: Seq<usize>)
    requires
        bounded(raw),
        forall|i: int| 0 <= i < r.len() ==> raw.contains(#[trigger] r[i]),
    ensures
        bounded(r),
{
    assert forall|i: int| 0 <= i < r.len() implies (#[trigger] r[i]) < usize::MAX by {
        assert(raw.contains(r[i]));
        let k = choose|k: int| 0 <= k < raw.len() && raw[k] == r[i];
        assert(raw[k] < usize::MAX);
    }
}

/// Lists that hold each index equally often have the same members.
pub proof fn lemma_multiset_members(r: Seq<usize>, raw: Seq<usize>)
    requires
        r.to_multiset() =~= raw.to_multiset(),
    ensures
        forall|i: int| 0 <= i < r.len() ==> raw.contains(#[trigger] r[i]),
        forall|i: int| 0 <= i < raw.len() ==> r.contains(#[trigger] raw[i]),
{
    broadcast use vstd::seq_lib::group_to_multiset_ensures;

    assert forall|i: int| 0 <= i < r.len() implies raw.contains(#[trigger] r[i]) by {
        assert(r.contains(r[i]));
        assert(r.to_multiset().count(r[i]) > 0);
    }
    assert forall|i: int| 0 <= i < raw.len() implies r.contains(#[trigger] raw[i]) by {
        assert(raw.contains(raw[i]));
        assert(raw.to_multiset().count(raw[i]) > 0);
    }
}

/// Lists with the same members have the same span.
pub proof fn lemma_span_by_members(r: Seq<usize>, raw: Seq<usize>)
    requires
        forall|i: int| 0 <= i < r.len() ==> raw.contains(#[trigger] r[i]),
        forall|i: int| 0 <= i < raw.len() ==> r.contains(#[trigger] raw[i]),
    ensures
        span(r) == span(raw),
{
    lemma_span_bounds(r);
    lemma_span_bounds(raw);
    if r.len() > 0 {
        let i = choose|i: int| 0 <= i < r.len() && r[i] + 1 == span(r);
        assert(raw.contains(r[i]));
        let k = choose|k: int| 0 <= k < raw.len() && raw[k] == r[i];
        assert(raw[k] < span(raw));
        let j = choose|j: int| 0 <= j < raw.len() && raw[j] + 1 == span(raw);
        assert(r.contains(raw[j]));
        let m = choose|m: int| 0 <= m < r.len() && r[m] == raw[j];
        assert(r[m] < span(r));
    } else {
        if raw.len() > 0 {
            assert(r.contains(raw[0]));
        }
    }
}

/// The span of a list is at least the span of each of its beginnings.
pub proof fn lemma_span_monotone(s: Seq<usize>, k: int)
    requires
        0 <= k <= s.len(),
    ensures
        span(s.take(k)) <= span(s),
    decreases s.len() - k,
{
    if k < s.len() {
        lemma_span_monotone(s, k + 1);
        assert(s.take(k + 1).drop_last() =~= s.take(k));
    } else {
        assert(s.take(k) =~= s);
    }
}

/// The span of a list is above each of its entries, and an entry reaches it.
pub proof fn lemma_span_bounds(s: Seq<usize>)
    ensures
        forall|i: int| 0 <= i < s.len() ==> (#[trigger] s[i]) < span(s),
        s.len() > 0 ==> exists|i: int| 0 <= i < s.len() && s[i] + 1 == span(s),
        s.len() == 0 ==> span(s) == 0,
    decreases s.len(),
{
    if s.len() > 0 {
        let rest = s.drop_last();
        lemma_span_bounds(rest);
        assert forall|i: int| 0 <= i < s.len() implies (#[trigger] s[i]) < span(s) by {
            if i < rest.len() {
                assert(rest[i] == s[i]);
            }
        }
        if s.last() + 1 > span(rest) {
            assert(s[s.len() - 1] + 1 == span(s));
        } else {
            assert(rest.len() > 0);
            let i = choose|i: int| 0 <= i < rest.len() && rest[i] + 1 == span(rest);
            assert(s[i] + 1 == span(s));
        }
    }
}

/// One term of a reordered product: the creators that came to the front, the
/// annihilators that remain, and the sign of the term.
pub type ReorderedTerm = (Seq<usize>, Seq<usize>, Sign);

/// The sign that one operator picks up when it passes `count` operators that
/// it commutes or anticommutes with.
pub open spec fn pass_sign(count: nat, fermionic: bool) -> Sign {
    if fermionic && count % 2 == 1 {
        Sign::Minus
    } else {
        Sign::Plus
    }
}

/// Each term with one more creator at the front and its sign multiplied.
pub open spec fn with_creator(x: usize, factor: Sign, terms: Seq<ReorderedTerm>) -> Seq<ReorderedTerm> {
    Seq::new(terms.len(), |i: int| (seq![x] + terms[i].0, terms[i].1, terms[i].2.product(factor)))
}

/// Each term with its sign multiplied.
pub open spec fn with_factor(factor: Sign, terms: Seq<ReorderedTerm>) -> Seq<ReorderedTerm> {
    Seq::new(terms.len(), |i: int| (terms[i].0, terms[i].1, terms[i].2.product(factor)))
}

/// The normal-ordered form of a row of annihilators followed by a row of
/// creators.
///
/// The first creator moves to the front. On its way it passes every
/// annihilator, which for fermions costs a sign for each; and with each
/// annihilator of its own mode it leaves a term in which the two are gone.
/// The other creators follow in the same way in every term.
pub open spec fn reorder(annihilators: Seq<usize>, creators: Seq<usize>, fermionic: bool) -> Seq<
    ReorderedTerm,
>
    decreases creators.len(), annihilators.len() + 1,
{
    if creators.len() == 0 {
        seq![(Seq::<usize>::empty(), annihilators, Sign::Plus)]
    } else {
        with_creator(
            creators[0],
            pass_sign(annihilators.len(), fermionic),
            reorder(annihilators, creators.drop_first(), fermionic),
        ) + contractions(annihilators, creators, fermionic, annihilators.len() as int)
    }
}

/// The terms in which the first creator is gone together with one of the
/// first `upto` annihilators, for each of them that has its mode. For
/// fermions the creator has passed, on its way to that annihilator, the
/// annihilators behind it.
pub open spec fn contractions(
    annihilators: Seq<usize>,
    creators: Seq<usize>,
    fermionic: bool,
    upto: int,
) -> Seq<ReorderedTerm>
    decreases creators.len(), upto,
{
    if upto <= 0 || upto > annihilators.len() || creators.len() == 0 {
        Seq::empty()
    } else {
        contractions(annihilators, creators, fermionic, upto - 1) + if annihilators[upto - 1]
            == creators[0] {
            with_factor(
                pass_sign((annihilators.len() - upto) as nat, fermionic),
                reorder(annihilators.remove(upto - 1), creators.drop_first(), fermionic),
            )
        } else {
            Seq::empty()
        }
    }
}

/// Whether a row of terms in memory is the given row of terms.
pub open spec fn terms_match(
    held: Seq<(Vec<usize>, Vec<usize>, Sign)>,
    terms: Seq<ReorderedTerm>,
) -> bool {
    &&& held.len() == terms.len()
    &&& forall|i: int|
        0 <= i < held.len() ==> (#[trigger] held[i]).0@ == terms[i].0 && held[i].1@ == terms[i].1
            && held[i].2 == terms[i].2
}

/// A list without the entry at place `p`.
pub fn list_without(a: &[usize], p: usize) -> (r: Vec<usize>)
    requires
        p < a.len(),
    ensures
        r@ == a@.remove(p as int),
{
    let mut r: Vec<usize> = Vec::new();
    let mut i: usize = 0;
    while i < a.len()
        invariant
            i <= a.len(),
            p < a.len(),
            r@ =~= if i <= p {
                a@.take(i as int)
            } else {
                a@.take(i as int).remove(p as int)
            },
        decreases a.len() - i,
    {
        if i != p {
            r.push(a[i]);
        }
        i += 1;
    }
    assert(a@.take(i as int) =~= a@);
    r
}

/// Two lists one after the other.
pub fn list_concat(a: &[usize], b: &[usize]) -> (r: Vec<usize>)
    ensures
        r@ == a@ + b@,
{
    let mut r: Vec<usize> = copy_list(a);
    let mut i: usize = 0;
    while i < b.len()
        invariant
            i <= b.len(),
            r@ =~= a@ + b@.take(i as int),
        decreases b.len() - i,
    {
        r.push(b[i]);
        i += 1;
    }
    assert(b@.take(i as int) =~= b@);
    r
}

/// Brings a row of annihilators followed by the creators from place `from`
/// on into normal order.
pub fn reorder_modes(annihilators: &[usize], creators: &[usize], from: usize, fermionic: bool) -> (r:
    Vec<(Vec<usize>, Vec<usize>, Sign)>)
    requires
        from <= creators.len(),
    ensures
        terms_match(r@, reorder(annihilators@, creators@.skip(from as int), fermionic)),
    decreases creators.len() - from,
{
    let mut out: Vec<(Vec<usize>, Vec<usize>, Sign)> = Vec::new();
    if from >= creators.len() {
        out.push((Vec::new(), copy_list(annihilators), Sign::Plus));
        return out;
    }
    let ghost rest = creators@.skip(from as int);
    let ghost tail = creators@.skip(from + 1);
    assert(rest.drop_first() =~= tail);
    assert(rest[0] == creators@[from as int]);
    let x = creators[from];
    let pass = if fermionic && annihilators.len() % 2 == 1 {
        Sign::Minus
    } else {
        Sign::Plus
    };
    let inner = reorder_modes(annihilators, creators, from + 1, fermionic);
    let ghost passed = with_creator(x, pass, reorder(annihilators@, tail, fermionic));
    let mut k: usize = 0;
    while k < inner.len()
        invariant
            k <= inner.len(),
            terms_match(inner@, reorder(annihilators@, tail, fermionic)),
            passed == with_creator(x, pass, reorder(annihilators@, tail, fermionic)),
            terms_match(out@, passed.take(k as int)),
        decreases inner.len() - k,
    {
        let mut front: Vec<usize> = Vec::new();
        front.push(x);
        let with_x = list_concat(front.as_slice(), inner[k].0.as_slice());
        assert(front@ =~= seq![x]);
        out.push((with_x, copy_list(inner[k].1.as_slice()), inner[k].2.times(pass)));
        k += 1;
    }
    assert(passed.take(k as int) =~= passed);
    let mut p: usize = 0;
    assert(passed + contractions(annihilators@, rest, fermionic, 0) =~= passed);
    while p < annihilators.len()
        invariant
            p <= annihilators.len(),
            from < creators.len(),
            rest == creators@.skip(from as int),
            tail == creators@.skip(from + 1),
            rest.drop_first() == tail,
            rest.len() > 0,
            rest[0] == x,
            terms_match(out@, passed + contractions(annihilators@, rest, fermionic, p as int)),
        decreases annihilators.len() - p, 0nat,
    {
        let ghost so_far = passed + contractions(annihilators@, rest, fermionic, p as int);
        if annihilators[p] == x {
            let shorter = list_without(annihilators, p);
            let behind = if fermionic && (annihilators.len() - p - 1) % 2 == 1 {
                Sign::Minus
            } else {
                Sign::Plus
            };
            let sub = reorder_modes(shorter.as_slice(), creators, from + 1, fermionic);
            let ghost added = with_factor(behind, reorder(shorter@, tail, fermionic));
            assert(contractions(annihilators@, rest, fermionic, p + 1) =~= contractions(
                annihilators@,
                rest,
                fermionic,
                p as int,
            ) + added);
            let mut k: usize = 0;
            while k < sub.len()
                invariant
                    k <= sub.len(),
                    terms_match(sub@, reorder(shorter@, tail, fermionic)),
                    added == with_factor(behind, reorder(shorter@, tail, fermionic)),
                    terms_match(out@, so_far + added.take(k as int)),
                decreases sub.len() - k,
            {
                out.push(
                    (
                        copy_list(sub[k].0.as_slice()),
                        copy_list(sub[k].1.as_slice()),
                        sub[k].2.times(behind),
                    ),
                );
                assert(so_far + added.take(k + 1) =~= (so_far + added.take(k as int)).push(
                    added[k as int],
                ));
                k += 1;
            }
            assert(added.take(k as int) =~= added);
            assert(so_far + added =~= passed + contractions(annihilators@, rest, fermionic, p + 1));
        } else {
            assert(contractions(annihilators@, rest, fermionic, p + 1) =~= contractions(
                annihilators@,
                rest,
                fermionic,
                p as int,
            ));
        }
        p += 1;
    }
    out
}

/// Every entry of a list occurs in another list.
pub open spec fn drawn_from(s: Seq<usize>, pool: Seq<usize>) -> bool {
    forall|j: int| 0 <= j < s.len() ==> pool.contains(#[trigger] s[j])
}

/// Reordering invents no mode: the creators of each term are among the
/// creators, and its annihilators among the annihilators, that went in.
pub proof fn lemma_reorder_members(annihilators: Seq<usize>, creators: Seq<usize>, fermionic: bool)
    ensures
        forall|i: int|
            0 <= i < reorder(annihilators, creators, fermionic).len() ==> drawn_from(
                (#[trigger] reorder(annihilators, creators, fermionic)[i]).0,
                creators,
            ) && drawn_from(reorder(annihilators, creators, fermionic)[i].1, annihilators),
    decreases creators.len(), annihilators.len() + 1,
{
    let all = reorder(annihilators, creators, fermionic);
    if creators.len() == 0 {
        assert forall|i: int| 0 <= i < all.len() implies drawn_from((#[trigger] all[i]).0, creators)
            && drawn_from(all[i].1, annihilators) by {
            assert forall|j: int| 0 <= j < all[i].1.len() implies annihilators.contains(
                #[trigger] all[i].1[j],
            ) by {
                assert(annihilators[j] == all[i].1[j]);
            }
        }
    } else {
        let tail = creators.drop_first();
        let inner = reorder(annihilators, tail, fermionic);
        let passed = with_creator(creators[0], pass_sign(annihilators.len(), fermionic), inner);
        let gone = contractions(annihilators, creators, fermionic, annihilators.len() as int);
        lemma_reorder_members(annihilators, tail, fermionic);
        lemma_contractions_members(annihilators, creators, fermionic, annihilators.len() as int);
        assert forall|i: int| 0 <= i < all.len() implies drawn_from((#[trigger] all[i]).0, creators)
            && drawn_from(all[i].1, annihilators) by {
            if i < passed.len() {
                assert(all[i] == passed[i]);
                assert(drawn_from(inner[i].0, tail));
                assert forall|j: int| 0 <= j < all[i].0.len() implies creators.contains(
                    #[trigger] all[i].0[j],
                ) by {
                    if j == 0 {
                        assert(creators[0] == all[i].0[j]);
                    } else {
                        assert(all[i].0[j] == inner[i].0[j - 1]);
                        assert(tail.contains(inner[i].0[j - 1]));
                        let m = choose|m: int| 0 <= m < tail.len() && tail[m] == inner[i].0[j - 1];
                        assert(creators[m + 1] == tail[m]);
                    }
                }
            } else {
                assert(all[i] == gone[i - passed.len()]);
            }
        }
    }
}

/// The same for the terms in which the first creator is gone.
pub proof fn lemma_contractions_members(
    annihilators: Seq<usize>,
    creators: Seq<usize>,
    fermionic: bool,
    upto: int,
)
    ensures
        forall|i: int|
            0 <= i < contractions(annihilators, creators, fermionic, upto).len() ==> drawn_from(
                (#[trigger] contractions(annihilators, creators, fermionic, upto)[i]).0,
                creators,
            ) && drawn_from(contractions(annihilators, creators, fermionic, upto)[i].1, annihilators),
    decreases creators.len(), upto,
{
    let all = contractions(annihilators, creators, fermionic, upto);
    if upto <= 0 || upto > annihilators.len() || creators.len() == 0 {
    } else {
        let before = contractions(annihilators, creators, fermionic, upto - 1);
        lemma_contractions_members(annihilators, creators, fermionic, upto - 1);
        let tail = creators.drop_first();
        let shorter = annihilators.remove(upto - 1);
        let sub = reorder(shorter, tail, fermionic);
        lemma_reorder_members(shorter, tail, fermionic);
        assert forall|i: int| 0 <= i < all.len() implies drawn_from((#[trigger] all[i]).0, creators)
            && drawn_from(all[i].1, annihilators) by {
            if i < before.len() {
                assert(all[i] == before[i]);
            } else {
                let k = i - before.len();
                assert(all[i].0 == sub[k].0 && all[i].1 == sub[k].1);
                assert(drawn_from(sub[k].0, tail));
                assert forall|j: int| 0 <= j < all[i].0.len() implies creators.contains(
                    #[trigger] all[i].0[j],
                ) by {
                    assert(tail.contains(sub[k].0[j]));
                    let m = choose|m: int| 0 <= m < tail.len() && tail[m] == sub[k].0[j];
                    assert(creators[m + 1] == tail[m]);
                }
                assert forall|j: int| 0 <= j < all[i].1.len() implies annihilators.contains(
                    #[trigger] all[i].1[j],
                ) by {
                    assert(shorter.contains(sub[k].1[j]));
                    let m = choose|m: int| 0 <= m < shorter.len() && shorter[m] == sub[k].1[j];
                    let m0 = if m < upto - 1 {
                        m
                    } else {
                        m + 1
                    };
                    assert(annihilators[m0] == shorter[m]);
                }
            }
        }
    }
}

/// The span of two lists one after the other is the larger of their spans.
pub proof fn lemma_span_concat(a: Seq<usize>, b: Seq<usize>)
    ensures
        span(a + b) == if span(a) > span(b) {
            span(a)
        } else {
            span(b)
        },
    decreases b.len(),
{
    if b.len() == 0 {
        assert(a + b =~= a);
    } else {
        assert((a + b).drop_last() =~= a + b.drop_last());
        lemma_span_concat(a, b.drop_last());
    }
}

/// A list whose entries occur in another list has at most its span.
pub proof fn lemma_span_drawn(s: Seq<usize>, pool: Seq<usize>)
    requires
        drawn_from(s, pool),
    ensures
        span(s) <= span(pool),
{
    lemma_span_bounds(s);
    lemma_span_bounds(pool);
    if s.len() > 0 {
        let i = choose|i: int| 0 <= i < s.len() && s[i] + 1 == span(s);
        assert(pool.contains(s[i]));
        let k = choose|k: int| 0 <= k < pool.len() && pool[k] == s[i];
        assert(pool[k] < span(pool));
    }
}

/// A list whose entries occur in a bounded list is bounded.
pub proof fn lemma_bounded_drawn(s: Seq<usize>, pool: Seq<usize>)
    requires
        drawn_from(s, pool),
        bounded(pool),
    ensures
        bounded(s),
{
    lemma_bounded_by_members(s, pool);
}

/// Lists with the same set of entries have the same members.
pub proof fn lemma_set_members(r: Seq<usize>, raw: Seq<usize>)
    requires
        r.to_set() =~= raw.to_set(),
    ensures
        drawn_from(r, raw),
        drawn_from(raw, r),
{
    assert forall|j: int| 0 <= j < r.len() implies raw.contains(#[trigger] r[j]) by {
        assert(r.to_set().contains(r[j]));
        assert(raw.to_set().contains(r[j]));
    }
    assert forall|j: int| 0 <= j < raw.len() implies r.contains(#[trigger] raw[j]) by {
        assert(raw.to_set().contains(raw[j]));
        assert(r.to_set().contains(raw[j]));
    }
}

/// A list in reverse order.
pub fn list_reversed(a: &[usize]) -> (r: Vec<usize>)
    ensures
        r@ == a@.reverse(),
{
    let mut r: Vec<usize> = Vec::new();
    let mut i: usize = a.len();
    while i > 0
        invariant
            i <= a.len(),
            r@.len() == a.len() - i,
            forall|k: int| 0 <= k < r@.len() ==> r@[k] == a@[a.len() - 1 - k],
        decreases i,
    {
        i -= 1;
        r.push(a[i]);
    }
    assert(r@ =~= a@.reverse());
    r
}

/// A list in reverse order has the entries of the list.
pub proof fn lemma_reverse_members(s: Seq<usize>)
    ensures
        s.reverse().to_set() =~= s.to_set(),
        s.reverse().no_duplicates() == s.no_duplicates(),
{
    let r = s.reverse();
    assert forall|y: usize| r.to_set().contains(y) <==> s.to_set().contains(y) by {
        if r.contains(y) {
            let k = choose|k: int| 0 <= k < r.len() && r[k] == y;
            assert(s[s.len() - 1 - k] == y);
        }
        if s.contains(y) {
            let k = choose|k: int| 0 <= k < s.len() && s[k] == y;
            assert(r[s.len() - 1 - k] == y);
        }
    }
    if s.no_duplicates() {
        assert forall|i: int, j: int| 0 <= i < r.len() && 0 <= j < r.len() && i != j implies r[i]
            != r[j] by {
            assert(s[s.len() - 1 - i] != s[s.len() - 1 - j]);
        }
    }
    if r.no_duplicates() {
        assert forall|i: int, j: int| 0 <= i < s.len() && 0 <= j < s.len() && i != j implies s[i]
            != s[j] by {
            assert(r[s.len() - 1 - i] != r[s.len() - 1 - j]);
        }
    }
}

/// Whether one index list comes before another in the order of a
/// dictionary: at the first place where they differ the first has the
/// smaller index, or the first is a proper beginning of the second.
pub open spec fn lex_less(a: Seq<usize>, b: Seq<usize>) -> bool
    decreases a.len(),
{
    if b.len() == 0 {
        false
    } else if a.len() == 0 {
        true
    } else if a[0] != b[0] {
        a[0] < b[0]
    } else {
        lex_less(a.drop_first(), b.drop_first())
    }
}

/// Whether one index list comes before another in the order of a dictionary.
pub fn list_less(a: &[usize], b: &[usize]) -> (r: bool)
    ensures
        r == lex_less(a@, b@),
{
    let mut i: usize = 0;
    assert(a@.skip(0) =~= a@);
    assert(b@.skip(0) =~= b@);
    while i < a.len() && i < b.len()
        invariant
            i <= a.len(),
            i <= b.len(),
            lex_less(a@, b@) == lex_less(a@.skip(i as int), b@.skip(i as int)),
        decreases a.len() - i,
    {
        proof {
            assert(a@.skip(i as int)[0] == a@[i as int]);
            assert(b@.skip(i as int)[0] == b@[i as int]);
            assert(a@.skip(i as int).drop_first() =~= a@.skip(i + 1));
            assert(b@.skip(i as int).drop_first() =~= b@.skip(i + 1));
        }
        if a[i] != b[i] {
            return a[i] < b[i];
        }
        i += 1;
    }
    i < b.len()
}

/// Of two different index lists one comes before the other, and never both.
pub proof fn lemma_lex_less(a: Seq<usize>, b: Seq<usize>)
    ensures
        !(lex_less(a, b) && lex_less(b, a)),
        a != b ==> lex_less(a, b) || lex_less(b, a),
        !lex_less(a, a),
    decreases a.len(),
{
    if a.len() > 0 && b.len() > 0 {
        if a[0] == b[0] {
            lemma_lex_less(a.drop_first(), b.drop_first());
            if a.drop_first() == b.drop_first() {
                assert(a =~= seq![a[0]] + a.drop_first());
                assert(b =~= seq![b[0]] + b.drop_first());
            }
        }
    } else if a.len() == 0 && b.len() == 0 {
        assert(a =~= b);
    }
    if a.len() > 0 {
        lemma_lex_less(a.drop_first(), a.drop_first());
    }
}

/// The index that a relabelling gives an index: the one that the mapping
/// names for it, or the index itself where the mapping names none.
pub open spec fn relabelled(i: usize, mapping: Map<usize, usize>) -> usize {
    if mapping.contains_key(i) {
        mapping[i]
    } else {
        i
    }
}

/// An index list with each index relabelled.
pub open spec fn relabel(s: Seq<usize>, mapping: Map<usize, usize>) -> Seq<usize> {
    Seq::new(s.len(), |k: int| relabelled(s[k], mapping))
}

/// The index that a relabelling gives an index.
pub fn relabel_index(i: usize, mapping: &HashMap<usize, usize>) -> (r: usize)
    ensures
        r == relabelled(i, mapping@),
{
    broadcast use vstd::std_specs::hash::group_hash_axioms;

    match mapping.get(&i) {
        Some(j) => *j,
        None => i,
    }
}

/// Relabels each index of a list.
pub fn relabel_list(a: &[usize], mapping: &HashMap<usize, usize>) -> (r: Vec<usize>)
    ensures
        r@ == relabel(a@, mapping@),
{
    let mut r: Vec<usize> = Vec::new();
    let mut i: usize = 0;
    while i < a.len()
        invariant
            i <= a.len(),
            r@.len() == i,
            forall|k: int| 0 <= k < i ==> r@[k] == relabelled(a@[k], mapping@),
        decreases a.len() - i,
    {
        r.push(relabel_index(a[i], mapping));
        i += 1;
    }
    assert(r@ =~= relabel(a@, mapping@));
    r
}

} // verus!
