//! Canonical order of index lists, and the sign that reordering costs.
//!
//! Bosonic operators commute, so a list of bosonic mode indices is canonical
//! when it is ascending. Fermionic operators anticommute: sorting a list
//! multiplies the term by the parity of the permutation, and a list with a
//! repeated index makes the term vanish.

use crate::sign::Sign;
use vstd::prelude::*;
use vstd::seq_lib::*;

verus! {

/// Every entry is at most the entries after it.
pub open spec fn ascending(s: Seq<usize>) -> bool {
    forall|i: int, j: int| 0 <= i < j < s.len() ==> s[i] <= s[j]
}

/// Every entry is smaller than the entries after it.
pub open spec fn strictly_ascending(s: Seq<usize>) -> bool {
    forall|i: int, j: int| 0 <= i < j < s.len() ==> s[i] < s[j]
}

/// How many entries of `s` are greater than `x`.
pub open spec fn count_greater(s: Seq<usize>, x: usize) -> nat
    decreases s.len(),
{
    if s.len() == 0 {
        0
    } else {
        count_greater(s.drop_last(), x) + if s.last() > x {
            1nat
        } else {
            0nat
        }
    }
}

/// The number of pairs of positions `i < j` with `s[i] > s[j]`.
pub open spec fn inversions(s: Seq<usize>) -> nat
    decreases s.len(),
{
    if s.len() == 0 {
        0
    } else {
        inversions(s.drop_last()) + count_greater(s.drop_last(), s.last())
    }
}

/// The factor that a product of anticommuting operators picks up when its
/// indices are brought into ascending order: `0` where an index repeats,
/// otherwise `+1` or `-1` with the parity of the number of inversions.
pub open spec fn exchange_sign(s: Seq<usize>) -> int {
    if !s.no_duplicates() {
        0
    } else if inversions(s) % 2 == 0 {
        1
    } else {
        -1
    }
}

/// The ascending list that holds each index as often as `s` does.
pub open spec fn ascending_form(s: Seq<usize>) -> Seq<usize> {
    choose|r: Seq<usize>| ascending(r) && r.to_multiset() =~= s.to_multiset()
}

/// The strictly ascending list of the indices that occur in `s`.
pub open spec fn strictly_ascending_form(s: Seq<usize>) -> Seq<usize> {
    choose|r: Seq<usize>| strictly_ascending(r) && r.to_set() =~= s.to_set()
}

/// Every list has an ascending form, with the same entries as often.
pub proof fn lemma_ascending_form(s: Seq<usize>)
    ensures
        ascending(ascending_form(s)),
        ascending_form(s).to_multiset() =~= s.to_multiset(),
{
    let leq = |x: usize, y: usize| x <= y;
    assert(vstd::relations::total_ordering(leq)) by {
        assert(vstd::relations::reflexive(leq));
        assert(vstd::relations::antisymmetric(leq));
        assert(vstd::relations::transitive(leq));
        assert(vstd::relations::strongly_connected(leq));
    }
    s.lemma_sort_by_ensures(leq);
    let r = s.sort_by(leq);
    assert(ascending(r)) by {
        assert forall|i: int, j: int| 0 <= i < j < r.len() implies r[i] <= r[j] by {
            assert(leq(r[i], r[j]));
        }
    }
}

/// Every entry is below the largest index that the machine has, so that the
/// count of sites or modes up to it is a machine number too.
pub open spec fn bounded(s: Seq<usize>) -> bool {
    forall|i: int| 0 <= i < s.len() ==> (#[trigger] s[i]) < usize::MAX
}

/// The exchange sign of a list as a sign.
pub open spec fn exchange(s: Seq<usize>) -> Sign {
    Sign::of_int(exchange_sign(s))
}

/// An ascending list has no inversions.
pub proof fn lemma_inversions_ascending(s: Seq<usize>)
    requires
        ascending(s),
    ensures
        inversions(s) == 0,
    decreases s.len(),
{
    if s.len() > 0 {
        let rest = s.drop_last();
        assert forall|i: int, j: int| 0 <= i < j < rest.len() implies rest[i] <= rest[j] by {
            assert(rest[i] == s[i] && rest[j] == s[j]);
        }
        lemma_inversions_ascending(rest);
        assert forall|k: int| 0 <= k < rest.len() implies rest[k] <= s.last() by {
            assert(rest[k] == s[k]);
        }
        lemma_count_greater_ascending(rest, rest.len() as int, s.last());
    }
}

/// Every list has a strictly ascending form, with the same entries.
pub proof fn lemma_strictly_ascending_form(s: Seq<usize>)
    ensures
        strictly_ascending(strictly_ascending_form(s)),
        strictly_ascending_form(s).to_set() =~= s.to_set(),
    decreases s.len(),
{
    if s.len() == 0 {
        let r = Seq::<usize>::empty();
        assert(strictly_ascending(r) && r.to_set() =~= s.to_set());
    } else {
        let rest = s.drop_last();
        let x = s.last();
        lemma_strictly_ascending_form(rest);
        let r = strictly_ascending_form(rest);
        assert forall|y: usize| s.to_set().contains(y) <==> (rest.to_set().contains(y) || y == x) by {
            if s.contains(y) {
                let k = choose|k: int| 0 <= k < s.len() && s[k] == y;
                if k < rest.len() {
                    assert(rest[k] == y);
                }
            }
            if rest.contains(y) {
                let k = choose|k: int| 0 <= k < rest.len() && rest[k] == y;
                assert(s[k] == y);
            }
            if y == x {
                assert(s[s.len() - 1] == y);
            }
        }
        if r.contains(x) {
            assert(r.to_set().contains(x));
            assert(r.to_set() =~= s.to_set());
            assert(strictly_ascending(r) && r.to_set() =~= s.to_set());
        } else {
            let p = below(r, x);
            lemma_below(r, x);
            let t = r.insert(p, x);
            assert(strictly_ascending(t)) by {
                assert forall|i: int, j: int| 0 <= i < j < t.len() implies t[i] < t[j] by {
                    let vi = if i < p { r[i] } else if i == p { x } else { r[i - 1] };
                    let vj = if j < p { r[j] } else if j == p { x } else { r[j - 1] };
                    assert(t[i] == vi && t[j] == vj);
                    if i != p && j != p {
                        let i0 = if i < p { i } else { i - 1 };
                        let j0 = if j < p { j } else { j - 1 };
                        assert(r[i0] < r[j0]);
                    } else if i == p {
                        assert(r.contains(r[j - 1]));
                    } else {
                        assert(r.contains(r[i]));
                    }
                }
            }
            assert forall|y: usize| t.to_set().contains(y) <==> s.to_set().contains(y) by {
                if t.contains(y) {
                    let k = choose|k: int| 0 <= k < t.len() && t[k] == y;
                    if k != p {
                        let k0 = if k < p { k } else { k - 1 };
                        assert(r[k0] == y);
                        assert(r.to_set().contains(y));
                    }
                }
                if r.to_set().contains(y) {
                    let k = choose|k: int| 0 <= k < r.len() && r[k] == y;
                    let k1 = if k < p { k } else { k + 1 };
                    assert(t[k1] == y);
                }
                if y == x {
                    assert(t[p] == y);
                }
            }
            assert(strictly_ascending(t) && t.to_set() =~= s.to_set());
        }
    }
}

/// How many entries at the start of a list are below `x`.
pub open spec fn below(s: Seq<usize>, x: usize) -> int
    decreases s.len(),
{
    if s.len() > 0 && s[0] < x {
        1 + below(s.drop_first(), x)
    } else {
        0
    }
}

/// In a strictly ascending list, the entries below `x` come first.
pub proof fn lemma_below(s: Seq<usize>, x: usize)
    requires
        strictly_ascending(s),
    ensures
        0 <= below(s, x) <= s.len(),
        forall|i: int| 0 <= i < below(s, x) ==> s[i] < x,
        forall|i: int| below(s, x) <= i < s.len() ==> s[i] >= x,
    decreases s.len(),
{
    if s.len() > 0 && s[0] < x {
        let rest = s.drop_first();
        assert forall|i: int, j: int| 0 <= i < j < rest.len() implies rest[i] < rest[j] by {
            assert(rest[i] == s[i + 1] && rest[j] == s[j + 1]);
        }
        lemma_below(rest, x);
        assert forall|i: int| 0 <= i < below(s, x) implies s[i] < x by {
            if i > 0 {
                assert(s[i] == rest[i - 1]);
            }
        }
        assert forall|i: int| below(s, x) <= i < s.len() implies s[i] >= x by {
            assert(s[i] == rest[i - 1]);
        }
    } else if s.len() > 0 {
        assert forall|i: int| 0 <= i < s.len() implies s[i] >= x by {
            if i > 0 {
                assert(s[0] < s[i]);
            }
        }
    }
}

/// One more than the largest entry, or 0 for the empty list.
pub open spec fn span(s: Seq<usize>) -> nat
    decreases s.len(),
{
    if s.len() == 0 {
        0
    } else {
        let rest = span(s.drop_last());
        if s.last() + 1 > rest {
            (s.last() + 1) as nat
        } else {
            rest
        }
    }
}

/// Putting an entry into a list adds one to the count of entries greater
/// than `x` where the entry is greater than `x`, and nothing otherwise.
pub proof fn lemma_count_greater_insert(s: Seq<usize>, p: int, y: usize, x: usize)
    requires
        0 <= p <= s.len(),
    ensures
        count_greater(s.insert(p, y), x) == count_greater(s, x) + if y > x {
            1nat
        } else {
            0nat
        },
    decreases s.len(),
{
    let t = s.insert(p, y);
    if p == s.len() {
        assert(t.drop_last() =~= s);
    } else {
        assert(t.drop_last() =~= s.drop_last().insert(p, y));
        assert(t.last() == s.last());
        lemma_count_greater_insert(s.drop_last(), p, y, x);
    }
}

/// In an ascending list, the entries greater than `x` are those from the
/// first such entry on.
pub proof fn lemma_count_greater_ascending(s: Seq<usize>, p: int, x: usize)
    requires
        ascending(s),
        0 <= p <= s.len(),
        forall|k: int| 0 <= k < p ==> s[k] <= x,
        forall|k: int| p <= k < s.len() ==> s[k] > x,
    ensures
        count_greater(s, x) == s.len() - p,
    decreases s.len(),
{
    if s.len() > 0 {
        if p == s.len() {
            lemma_count_greater_ascending(s.drop_last(), p - 1, x);
        } else {
            lemma_count_greater_ascending(s.drop_last(), p, x);
        }
    }
}

/// A list with an entry put into it holds what the list held and the entry.
pub proof fn lemma_insert_to_multiset(s: Seq<usize>, p: int, y: usize)
    requires
        0 <= p <= s.len(),
    ensures
        s.insert(p, y).to_multiset() =~= s.to_multiset().insert(y),
{
    broadcast use group_to_multiset_ensures;

    let a = s.subrange(0, p);
    let b = s.subrange(p, s.len() as int);
    assert(s =~= a + b);
    assert(s.insert(p, y) =~= a.push(y) + b);
    lemma_multiset_commutative(a, b);
    lemma_multiset_commutative(a.push(y), b);
}

/// Sorts a list of bosonic mode indices.
///
/// The result is the one ascending list that holds each index as often as
/// `raw` does.
pub fn sort_ascending(raw: &[usize]) -> (r: Vec<usize>)
    ensures
        ascending(r@),
        r@.to_multiset() =~= raw@.to_multiset(),
        r@.len() == raw@.len(),
        r@ == ascending_form(raw@),
{
    let mut out: Vec<usize> = Vec::new();
    let mut i: usize = 0;
    assert(raw@.subrange(0, 0) =~= out@);
    while i < raw.len()
        invariant
            i <= raw.len(),
            out@.len() == i,
            ascending(out@),
            out@.to_multiset() =~= raw@.subrange(0, i as int).to_multiset(),
        decreases raw.len() - i,
    {
        let x = raw[i];
        let mut p: usize = out.len();
        while p > 0 && out[p - 1] > x
            invariant
                p <= out.len(),
                forall|k: int| p <= k < out.len() ==> out[k] > x,
            decreases p,
        {
            p -= 1;
        }
        proof {
            lemma_insert_to_multiset(out@, p as int, x);
            assert(raw@.subrange(0, i + 1) =~= raw@.subrange(0, i as int).push(x));
            broadcast use group_to_multiset_ensures;
        }
        out.insert(p, x);
        i += 1;
    }
    assert(raw@.subrange(0, i as int) =~= raw@);
    proof {
        lemma_ascending_unique(out@, ascending_form(raw@));
    }
    out
}

/// An ascending list is determined by how often it holds each index.
pub proof fn lemma_ascending_unique(a: Seq<usize>, b: Seq<usize>)
    requires
        ascending(a),
        ascending(b),
        a.to_multiset() =~= b.to_multiset(),
    ensures
        a == b,
    decreases a.len(),
{
    broadcast use group_to_multiset_ensures;

    a.to_multiset_ensures();
    b.to_multiset_ensures();
    assert(a.len() == b.len());
    if a.len() > 0 {
        // the last entries are the largest of the same collection
        assert(b.to_multiset().count(a.last()) > 0);
        assert(b.contains(a.last()));
        assert(a.to_multiset().count(b.last()) > 0);
        assert(a.contains(b.last()));
        assert(a.last() == b.last());
        assert(a.drop_last() =~= a.remove(a.len() - 1));
        assert(b.drop_last() =~= b.remove(b.len() - 1));
        lemma_ascending_unique(a.drop_last(), b.drop_last());
        assert(a =~= a.drop_last().push(a.last()));
        assert(b =~= b.drop_last().push(b.last()));
    } else {
        assert(a =~= b);
    }
}

/// A strictly ascending list is determined by the set of its entries.
pub proof fn lemma_strictly_ascending_unique(a: Seq<usize>, b: Seq<usize>)
    requires
        strictly_ascending(a),
        strictly_ascending(b),
        a.to_set() =~= b.to_set(),
    ensures
        a == b,
    decreases a.len(),
{
    if a.len() == 0 {
        if b.len() > 0 {
            assert(b.to_set().contains(b[0]));
            assert(a.to_set().contains(b[0]));
        }
        assert(a =~= b);
    } else {
        assert(a.to_set().contains(a.last()));
        assert(b.to_set().contains(a.last()));
        assert(b.len() > 0);
        assert(b.to_set().contains(b.last()));
        assert(a.to_set().contains(b.last()));
        assert(a.last() == b.last());
        assert forall|x: usize| a.drop_last().to_set().contains(x) <==> b.drop_last().to_set().contains(x) by {
            if a.drop_last().contains(x) {
                assert(a.contains(x));
                assert(b.to_set().contains(x));
                assert(x != b.last());
                let k = choose|k: int| 0 <= k < b.len() && b[k] == x;
                assert(b.drop_last()[k] == x);
            }
            if b.drop_last().contains(x) {
                assert(b.contains(x));
                assert(a.to_set().contains(x));
                assert(x != a.last());
                let k = choose|k: int| 0 <= k < a.len() && a[k] == x;
                assert(a.drop_last()[k] == x);
            }
        }
        assert(a.drop_last().to_set() =~= b.drop_last().to_set());
        lemma_strictly_ascending_unique(a.drop_last(), b.drop_last());
        assert(a =~= a.drop_last().push(a.last()));
        assert(b =~= b.drop_last().push(b.last()));
    }
}

/// Appending an entry that is new to a list keeps it free of repetitions;
/// appending one that is there already does not.
pub proof fn lemma_no_duplicates_push(s: Seq<usize>, x: usize)
    ensures
        s.push(x).no_duplicates() <==> (s.no_duplicates() && !s.contains(x)),
{
    let t = s.push(x);
    if s.no_duplicates() && !s.contains(x) {
        assert forall|i: int, j: int| 0 <= i < t.len() && 0 <= j < t.len() && i != j implies t[i] != t[j] by {
            if i < s.len() && j < s.len() {
                assert(s[i] != s[j]);
            } else if i < s.len() {
                assert(s.contains(s[i]));
            } else {
                assert(s.contains(s[j]));
            }
        }
    }
    if t.no_duplicates() {
        assert forall|i: int, j: int| 0 <= i < s.len() && 0 <= j < s.len() && i != j implies s[i] != s[j] by {
            assert(t[i] == s[i] && t[j] == s[j]);
        }
        if s.contains(x) {
            let k = choose|k: int| 0 <= k < s.len() && s[k] == x;
            assert(t[k] == x && t[s.len() as int] == x);
        }
    }
}

/// Sorts a list of fermionic mode indices and tells the sign of the exchange.
///
/// The list that comes back holds each index of `raw` once, in ascending
/// order. The sign is `0` where `raw` repeats an index, and otherwise the
/// parity of the number of inversions in `raw`.
pub fn sort_with_sign(raw: &[usize]) -> (r: (Vec<usize>, Sign))
    ensures
        strictly_ascending(r.0@),
        r.0@.to_set() =~= raw@.to_set(),
        r.1.value() == exchange_sign(raw@),
        raw@.no_duplicates() ==> r.0@.len() == raw@.len(),
        r.0@.len() <= raw@.len(),
        r.0@ == strictly_ascending_form(raw@),
{
    let mut out: Vec<usize> = Vec::new();
    let mut odd: bool = false;
    let mut repeated: bool = false;
    let mut i: usize = 0;
    assert(raw@.subrange(0, 0) =~= out@);
    while i < raw.len()
        invariant
            i <= raw.len(),
            out@.len() <= i,
            strictly_ascending(out@),
            out@.to_set() =~= raw@.subrange(0, i as int).to_set(),
            repeated == !raw@.subrange(0, i as int).no_duplicates(),
            !repeated ==> out@.len() == i,
            !repeated ==> odd == (inversions(raw@.subrange(0, i as int)) % 2 == 1),
            !repeated ==> forall|x: usize| count_greater(out@, x) == count_greater(raw@.subrange(0, i as int), x),
        decreases raw.len() - i,
    {
        let x = raw[i];
        let ghost before = raw@.subrange(0, i as int);
        let ghost after = raw@.subrange(0, i + 1);
        let ghost old_out = out@;
        assert(after =~= before.push(x));
        assert(after.drop_last() =~= before);
        let mut p: usize = out.len();
        while p > 0 && out[p - 1] > x
            invariant
                p <= out.len(),
                forall|k: int| p <= k < out.len() ==> out[k] > x,
            decreases p,
        {
            p -= 1;
        }
        proof {
            lemma_no_duplicates_push(before, x);
        }
        if p > 0 && out[p - 1] == x {
            proof {
                assert(old_out.to_set().contains(x));
                assert(before.contains(x));
                assert forall|y: usize| after.to_set().contains(y) <==> old_out.to_set().contains(y) by {
                    if after.contains(y) {
                        let k = choose|k: int| 0 <= k < after.len() && after[k] == y;
                        if k < before.len() {
                            assert(before[k] == y);
                            assert(before.to_set().contains(y));
                        }
                    }
                    if old_out.to_set().contains(y) {
                        assert(before.to_set().contains(y));
                        let k = choose|k: int| 0 <= k < before.len() && before[k] == y;
                        assert(after[k] == y);
                    }
                }
            }
            repeated = true;
        } else {
            proof {
                assert forall|k: int| 0 <= k < p implies old_out[k] < x by {
                    assert(old_out[k] <= old_out[p - 1]);
                }
                assert(!old_out.contains(x));
                assert(!before.contains(x)) by {
                    if before.contains(x) {
                        assert(before.to_set().contains(x));
                        assert(old_out.to_set().contains(x));
                    }
                }
                let new_out = old_out.insert(p as int, x);
                assert forall|y: usize| after.to_set().contains(y) <==> new_out.to_set().contains(y) by {
                    if after.contains(y) {
                        let k = choose|k: int| 0 <= k < after.len() && after[k] == y;
                        if k < before.len() {
                            assert(before[k] == y);
                            assert(before.to_set().contains(y));
                            assert(old_out.to_set().contains(y));
                            let m = choose|m: int| 0 <= m < old_out.len() && old_out[m] == y;
                            if m < p {
                                assert(new_out[m] == y);
                            } else {
                                assert(new_out[m + 1] == y);
                            }
                        } else {
                            assert(new_out[p as int] == y);
                        }
                    }
                    if new_out.contains(y) {
                        let m = choose|m: int| 0 <= m < new_out.len() && new_out[m] == y;
                        if m == p {
                            assert(after[i as int] == y);
                        } else {
                            let m0 = if m < p { m } else { m - 1 };
                            assert(old_out[m0] == y);
                            assert(old_out.to_set().contains(y));
                            assert(before.to_set().contains(y));
                            let k = choose|k: int| 0 <= k < before.len() && before[k] == y;
                            assert(after[k] == y);
                        }
                    }
                }
                if !repeated {
                    assert forall|k: int| 0 <= k < p implies old_out[k] <= x by {}
                    lemma_count_greater_ascending(old_out, p as int, x);
                    assert forall|z: usize| count_greater(new_out, z) == count_greater(after, z) by {
                        lemma_count_greater_insert(old_out, p as int, x, z);
                    }
                }
            }
            if (out.len() - p) % 2 == 1 {
                odd = !odd;
            }
            out.insert(p, x);
        }
        i += 1;
    }
    assert(raw@.subrange(0, i as int) =~= raw@);
    let sign = if repeated {
        Sign::Zero
    } else {
        Sign::of_parity(odd)
    };
    proof {
        lemma_strictly_ascending_unique(out@, strictly_ascending_form(raw@));
    }
    (out, sign)
}

/// The count of entries greater than `x` in two lists put together is the
/// sum of the counts in each.
pub proof fn lemma_count_greater_concat(u: Seq<usize>, v: Seq<usize>, x: usize)
    ensures
        count_greater(u + v, x) == count_greater(u, x) + count_greater(v, x),
    decreases v.len(),
{
    if v.len() == 0 {
        assert(u + v =~= u);
    } else {
        assert((u + v).drop_last() =~= u + v.drop_last());
        lemma_count_greater_concat(u, v.drop_last(), x);
    }
}

/// The number of pairs of an entry of `u` and a smaller entry of `v`.
pub open spec fn cross_inversions(u: Seq<usize>, v: Seq<usize>) -> nat
    decreases v.len(),
{
    if v.len() == 0 {
        0
    } else {
        cross_inversions(u, v.drop_last()) + count_greater(u, v.last())
    }
}

/// The inversions of two lists put together are those of each list and
/// those between the two.
pub proof fn lemma_inversions_concat(u: Seq<usize>, v: Seq<usize>)
    ensures
        inversions(u + v) == inversions(u) + inversions(v) + cross_inversions(u, v),
    decreases v.len(),
{
    if v.len() == 0 {
        assert(u + v =~= u);
    } else {
        assert((u + v).drop_last() =~= u + v.drop_last());
        lemma_inversions_concat(u, v.drop_last());
        lemma_count_greater_concat(u, v.drop_last(), v.last());
    }
}

/// The inversions between two lists depend on the first list only through
/// its counts of greater entries.
pub proof fn lemma_cross_inversions_counts(u1: Seq<usize>, u2: Seq<usize>, v: Seq<usize>)
    requires
        forall|x: usize| count_greater(u1, x) == count_greater(u2, x),
    ensures
        cross_inversions(u1, v) == cross_inversions(u2, v),
    decreases v.len(),
{
    if v.len() > 0 {
        lemma_cross_inversions_counts(u1, u2, v.drop_last());
    }
}

/// A list with the entries at two places exchanged.
pub open spec fn swapped(s: Seq<usize>, i: int, j: int) -> Seq<usize> {
    s.update(i, s[j]).update(j, s[i])
}

/// Exchanging two neighbours that differ changes the number of inversions
/// by one.
pub proof fn lemma_adjacent_swap(s: Seq<usize>, k: int)
    requires
        0 <= k,
        k + 1 < s.len(),
        s[k] != s[k + 1],
    ensures
        s[k] < s[k + 1] ==> inversions(swapped(s, k, k + 1)) == inversions(s) + 1,
        s[k] > s[k + 1] ==> inversions(swapped(s, k, k + 1)) + 1 == inversions(s),
{
    let a = s.subrange(0, k);
    let b = s.subrange(k + 2, s.len() as int);
    let x = s[k];
    let y = s[k + 1];
    let xy = seq![x, y];
    let yx = seq![y, x];
    assert(s =~= (a + xy) + b);
    assert(swapped(s, k, k + 1) =~= (a + yx) + b);
    lemma_inversions_concat(a + xy, b);
    lemma_inversions_concat(a + yx, b);
    lemma_inversions_concat(a, xy);
    lemma_inversions_concat(a, yx);
    lemma_pair(a, x, y);
    lemma_pair(a, y, x);
    assert forall|z: usize| count_greater(a + xy, z) == count_greater(a + yx, z) by {
        lemma_count_greater_concat(a, xy, z);
        lemma_count_greater_concat(a, yx, z);
        lemma_pair_count(x, y, z);
        lemma_pair_count(y, x, z);
    }
    lemma_cross_inversions_counts(a + xy, a + yx, b);
}

/// The counts of greater entries in a list of two entries.
pub proof fn lemma_pair_count(x: usize, y: usize, z: usize)
    ensures
        count_greater(seq![x, y], z) == (if x > z {
            1nat
        } else {
            0nat
        }) + (if y > z {
            1nat
        } else {
            0nat
        }),
{
    let e = Seq::<usize>::empty();
    let one = seq![x];
    let two = seq![x, y];
    assert(one.drop_last() =~= e);
    assert(two.drop_last() =~= one);
    assert(count_greater(e, z) == 0);
    assert(count_greater(one, z) == count_greater(e, z) + if x > z { 1nat } else { 0nat });
}

/// The inversions of a list of two entries, and those between a list and it.
pub proof fn lemma_pair(a: Seq<usize>, x: usize, y: usize)
    ensures
        inversions(seq![x, y]) == if x > y {
            1nat
        } else {
            0nat
        },
        cross_inversions(a, seq![x, y]) == count_greater(a, x) + count_greater(a, y),
{
    let e = Seq::<usize>::empty();
    let one = seq![x];
    let two = seq![x, y];
    assert(one.drop_last() =~= e);
    assert(two.drop_last() =~= one);
    assert(inversions(e) == 0);
    assert(count_greater(e, x) == 0);
    assert(count_greater(e, y) == 0);
    assert(inversions(one) == inversions(e) + count_greater(e, x));
    assert(count_greater(one, y) == count_greater(e, y) + if x > y { 1nat } else { 0nat });
    assert(inversions(two) == inversions(one) + count_greater(one, y));
    assert(cross_inversions(a, e) == 0);
    assert(cross_inversions(a, one) == cross_inversions(a, e) + count_greater(a, x));
    assert(cross_inversions(a, two) == cross_inversions(a, one) + count_greater(a, y));
}

/// Exchanging two entries neither makes nor removes a repetition.
pub proof fn lemma_swap_no_duplicates(s: Seq<usize>, i: int, j: int)
    requires
        0 <= i < s.len(),
        0 <= j < s.len(),
    ensures
        swapped(s, i, j).no_duplicates() == s.no_duplicates(),
{
    let t = swapped(s, i, j);
    let there = |k: int| if k == i { j } else if k == j { i } else { k };
    if s.no_duplicates() {
        assert forall|a: int, b: int| 0 <= a < t.len() && 0 <= b < t.len() && a != b implies t[a]
            != t[b] by {
            assert(t[a] == s[there(a)] && t[b] == s[there(b)]);
        }
    }
    if t.no_duplicates() {
        assert forall|a: int, b: int| 0 <= a < s.len() && 0 <= b < s.len() && a != b implies s[a]
            != s[b] by {
            assert(s[a] == t[there(a)] && s[b] == t[there(b)]);
        }
    }
}

/// Exchanging two entries keeps the set of entries.
pub proof fn lemma_swap_members(s: Seq<usize>, i: int, j: int)
    requires
        0 <= i < s.len(),
        0 <= j < s.len(),
    ensures
        swapped(s, i, j).to_set() =~= s.to_set(),
        swapped(s, i, j).to_multiset() =~= s.to_multiset(),
        swapped(swapped(s, i, j), i, j) =~= s,
{
    let t = swapped(s, i, j);
    let there = |k: int| if k == i { j } else if k == j { i } else { k };
    assert forall|y: usize| t.to_set().contains(y) <==> s.to_set().contains(y) by {
        if t.contains(y) {
            let k = choose|k: int| 0 <= k < t.len() && t[k] == y;
            assert(s[there(k)] == y);
        }
        if s.contains(y) {
            let k = choose|k: int| 0 <= k < s.len() && s[k] == y;
            assert(t[there(k)] == y);
        }
    }
    let half = s.update(i, s[j]);
    to_multiset_update(s, i, s[j]);
    to_multiset_update(half, j, s[i]);
    broadcast use group_to_multiset_ensures;

    assert(s.contains(s[i]) && s.contains(s[j]));
    assert(half.contains(half[j]));
    assert(t.to_multiset() =~= s.to_multiset());
}

/// Exchanging two entries of a list of anticommuting operators changes the
/// sign of the product.
pub proof fn lemma_swap_sign(s: Seq<usize>, i: int, j: int)
    requires
        0 <= i < j < s.len(),
    ensures
        exchange_sign(swapped(s, i, j)) == -exchange_sign(s),
    decreases j - i,
{
    lemma_swap_no_duplicates(s, i, j);
    if s.no_duplicates() {
        if j == i + 1 {
            lemma_adjacent_swap(s, i);
        } else {
            let s1 = swapped(s, i, i + 1);
            lemma_swap_no_duplicates(s, i, i + 1);
            lemma_adjacent_swap(s, i);
            let s2 = swapped(s1, i + 1, j);
            lemma_swap_sign(s1, i + 1, j);
            lemma_swap_no_duplicates(s1, i + 1, j);
            let s3 = swapped(s2, i, i + 1);
            assert(s2[i] != s2[i + 1]);
            lemma_adjacent_swap(s2, i);
            assert(s3 =~= swapped(s, i, j));
        }
    }
}

/// A list after a row of exchanges, each of the entries at two places.
pub open spec fn after_swaps(s: Seq<usize>, swaps: Seq<(int, int)>) -> Seq<usize>
    decreases swaps.len(),
{
    if swaps.len() == 0 {
        s
    } else {
        let before = after_swaps(s, swaps.drop_last());
        swapped(before, swaps.last().0, swaps.last().1)
    }
}

/// Whether each exchange of a row names two different places of a list of
/// the given length.
pub open spec fn valid_swaps(len: nat, swaps: Seq<(int, int)>) -> bool {
    forall|k: int|
        0 <= k < swaps.len() ==> 0 <= (#[trigger] swaps[k]).0 < len && 0 <= swaps[k].1 < len
            && swaps[k].0 != swaps[k].1
}

/// Sign correctness. A permutation of a list of fermionic modes, given as a
/// row of exchanges, has the canonical form of the list, and its sign is
/// the sign of the list times the parity of the permutation: the same for
/// an even number of exchanges, the opposite for an odd number.
pub proof fn lemma_permutation_sign(s: Seq<usize>, swaps: Seq<(int, int)>)
    requires
        valid_swaps(s.len(), swaps),
    ensures
        after_swaps(s, swaps).len() == s.len(),
        strictly_ascending_form(after_swaps(s, swaps)) == strictly_ascending_form(s),
        ascending_form(after_swaps(s, swaps)) == ascending_form(s),
        exchange_sign(after_swaps(s, swaps)) == if swaps.len() % 2 == 0 {
            exchange_sign(s)
        } else {
            -exchange_sign(s)
        },
    decreases swaps.len(),
{
    if swaps.len() > 0 {
        let rest = swaps.drop_last();
        assert forall|k: int| 0 <= k < rest.len() implies 0 <= (#[trigger] rest[k]).0 < s.len() && 0
            <= rest[k].1 < s.len() && rest[k].0 != rest[k].1 by {
            assert(rest[k] == swaps[k]);
        }
        lemma_permutation_sign(s, rest);
        let before = after_swaps(s, rest);
        let (i, j) = swaps.last();
        assert(swaps[swaps.len() - 1] == (i, j));
        lemma_swap_members(before, i, j);
        if i < j {
            lemma_swap_sign(before, i, j);
        } else {
            lemma_swap_sign(before, j, i);
            assert(swapped(before, j, i) =~= swapped(before, i, j));
        }
        let after = swapped(before, i, j);
        lemma_strictly_ascending_form(after);
        lemma_strictly_ascending_form(before);
        lemma_strictly_ascending_unique(
            strictly_ascending_form(after),
            strictly_ascending_form(before),
        );
        lemma_ascending_form(after);
        lemma_ascending_form(before);
        lemma_ascending_unique(ascending_form(after), ascending_form(before));
    }
}

} // verus!
