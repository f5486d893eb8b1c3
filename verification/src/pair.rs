//! Pairs of products: the keys of Lindblad noise operators.
//!
//! A noise term is labelled by the product that acts from the left and the
//! product that acts from the right. The two are independent: a pair and the
//! pair with left and right exchanged label different terms.

use crate::coefficient::{coeff_conj, coeff_conjugate, coeff_mul, coeff_product};
use crate::key::{
    rows_view, texts_view, CompactKey, OperatorKey, SingleTextKey, TextKey, TwoRowKey,
};
use crate::operator::{accumulate, lemma_accumulate_push, Operator};
use qoqo_calculator::CalculatorComplex;
use vstd::prelude::*;

verus! {

impl<K: OperatorKey> OperatorKey for (K, K) {
    type Shape = (K::Shape, K::Shape);

    open spec fn span(v: (K::V, K::V)) -> nat {
        if K::span(v.0) > K::span(v.1) {
            K::span(v.0)
        } else {
            K::span(v.1)
        }
    }

    open spec fn has_shape(v: (K::V, K::V), shape: (K::Shape, K::Shape)) -> bool {
        K::has_shape(v.0, shape.0) && K::has_shape(v.1, shape.1)
    }

    fn same_key(&self, other: &Self) -> (b: bool) {
        self.0.same_key(&other.0) && self.1.same_key(&other.1)
    }

    fn copy_key(&self) -> (r: Self) {
        (self.0.copy_key(), self.1.copy_key())
    }

    fn key_span(&self) -> (n: usize) {
        let left = self.0.key_span();
        let right = self.1.key_span();
        if left > right {
            left
        } else {
            right
        }
    }

    fn key_has_shape(&self, shape: &(K::Shape, K::Shape)) -> (b: bool) {
        self.0.key_has_shape(&shape.0) && self.1.key_has_shape(&shape.1)
    }
}

impl<K: SingleTextKey> TextKey for (K, K) {
    open spec fn arity() -> nat {
        2
    }

    open spec fn canonical(v: (K::V, K::V)) -> bool {
        K::canonical(v.0) && K::canonical(v.1)
    }

    open spec fn texts(v: (K::V, K::V)) -> Seq<Seq<char>> {
        K::texts(v.0) + K::texts(v.1)
    }

    open spec fn of_texts(texts: Seq<Seq<char>>) -> Option<(K::V, K::V)> {
        if texts.len() == 2 {
            let left = K::of_texts(texts.take(1));
            let right = K::of_texts(texts.skip(1));
            if left.is_some() && right.is_some() {
                Some((left.unwrap(), right.unwrap()))
            } else {
                None
            }
        } else {
            None
        }
    }

    proof fn lemma_texts(v: (K::V, K::V)) {
        K::lemma_single();
        K::lemma_texts(v.0);
        K::lemma_texts(v.1);
        let all = K::texts(v.0) + K::texts(v.1);
        assert(all.take(1) =~= K::texts(v.0));
        assert(all.skip(1) =~= K::texts(v.1));
    }

    open spec fn family() -> Seq<char> {
        K::family() + "LindbladNoise"@
    }

    fn key_family() -> (r: String) {
        let mut r = K::key_family();
        r.append("LindbladNoise");
        r
    }

    fn key_arity() -> (n: usize) {
        2
    }

    fn key_texts(&self) -> (r: Vec<String>) {
        proof {
            K::lemma_single();
        }
        let mut r = self.0.key_texts();
        let mut right = self.1.key_texts();
        let ghost left = r@;
        let ghost tail = right@;
        r.append(&mut right);
        assert(texts_view(r@) =~= texts_view(left) + texts_view(tail));
        r
    }

    fn key_from_texts(texts: &Vec<String>, from: usize) -> (r: Option<Self>) {
        let count = texts.len();
        assert(Self::arity() == 2);
        assert(from + 2 <= count);
        assert(texts_view(texts@).len() == texts@.len());
        proof {
            K::lemma_single();
            let all = texts_view(texts@).subrange(from as int, from + 2);
            assert(all.take(1) =~= texts_view(texts@).subrange(from as int, from + 1));
            assert(all.skip(1) =~= texts_view(texts@).subrange(from + 1, from + 2));
        }
        let left = K::key_from_texts(texts, from);
        let right = K::key_from_texts(texts, from + 1);
        match (left, right) {
            (Some(l), Some(r)) => Some((l, r)),
            _ => None,
        }
    }
}

impl<K: TwoRowKey> CompactKey for (K, K) {
    open spec fn row_count() -> nat {
        4
    }

    open spec fn compact_canonical(v: (K::V, K::V)) -> bool {
        K::compact_canonical(v.0) && K::compact_canonical(v.1)
    }

    open spec fn rows(v: (K::V, K::V)) -> Seq<Seq<usize>> {
        K::rows(v.0) + K::rows(v.1)
    }

    open spec fn of_rows(rows: Seq<Seq<usize>>) -> Option<(K::V, K::V)> {
        if rows.len() == 4 {
            let left = K::of_rows(rows.take(2));
            let right = K::of_rows(rows.skip(2));
            if left.is_some() && right.is_some() {
                Some((left.unwrap(), right.unwrap()))
            } else {
                None
            }
        } else {
            None
        }
    }

    proof fn lemma_rows(v: (K::V, K::V)) {
        K::lemma_two_rows();
        K::lemma_rows(v.0);
        K::lemma_rows(v.1);
        let all = K::rows(v.0) + K::rows(v.1);
        assert(all.take(2) =~= K::rows(v.0));
        assert(all.skip(2) =~= K::rows(v.1));
    }

    fn key_row_count() -> (n: usize) {
        4
    }

    fn key_rows(&self) -> (r: Vec<Vec<usize>>) {
        proof {
            K::lemma_two_rows();
        }
        let mut r = self.0.key_rows();
        let mut right = self.1.key_rows();
        let ghost left = r@;
        let ghost tail = right@;
        r.append(&mut right);
        assert(rows_view(r@) =~= rows_view(left) + rows_view(tail));
        r
    }

    fn key_from_rows(rows: &Vec<Vec<usize>>, from: usize) -> (r: Option<Self>) {
        let count = rows.len();
        assert(Self::row_count() == 4);
        assert(from + 4 <= count);
        assert(rows_view(rows@).len() == rows@.len());
        proof {
            K::lemma_two_rows();
            let all = rows_view(rows@).subrange(from as int, from + 4);
            assert(all.take(2) =~= rows_view(rows@).subrange(from as int, from + 2));
            assert(all.skip(2) =~= rows_view(rows@).subrange(from + 2, from + 4));
        }
        let left = K::key_from_rows(rows, from);
        let right = K::key_from_rows(rows, from + 2);
        match (left, right) {
            (Some(l), Some(r)) => Some((l, r)),
            _ => None,
        }
    }
}

/// The noise terms of one term with each term of a row: for the operators
/// `L` of the one term and `R` of a term of the row, the term that is
/// labelled by the products of `L` and `R`, with the given coefficient
/// times the coefficient of `L` and the conjugate of that of `R`.
pub open spec fn noise_row<KV>(
    left: (KV, CalculatorComplex),
    rights: Seq<(KV, CalculatorComplex)>,
    value: CalculatorComplex,
) -> Seq<((KV, KV), CalculatorComplex)> {
    Seq::new(
        rights.len(),
        |j: int|
            (
                (left.0, rights[j].0),
                coeff_product(coeff_product(value, left.1), coeff_conjugate(rights[j].1)),
            ),
    )
}

/// The noise terms of each term of one row with each term of another, the
/// first row outermost.
pub open spec fn noise_rows<KV>(
    lefts: Seq<(KV, CalculatorComplex)>,
    rights: Seq<(KV, CalculatorComplex)>,
    value: CalculatorComplex,
) -> Seq<((KV, KV), CalculatorComplex)>
    decreases lefts.len(),
{
    if lefts.len() == 0 {
        Seq::empty()
    } else {
        noise_rows(lefts.drop_last(), rights, value) + noise_row(lefts.last(), rights, value)
    }
}

impl<K: OperatorKey> Operator<(K, K)> {
    /// Adds the noise that two operators make up together: for the
    /// operators `L` and `R` and the coefficient `v`, the noise that takes a
    /// state `s` to `v L s R^†`. Each term of `L` is paired with each term
    /// of `R`.
    pub fn add_noise_from_full_operators(
        &mut self,
        left: &Operator<K>,
        right: &Operator<K>,
        value: &CalculatorComplex,
    )
        ensures
            final(self)@ == accumulate(
                old(self)@,
                noise_rows(left.terms(), right.terms(), *value),
            ),
    {
        let ghost lefts = left.terms();
        let ghost rights = right.terms();
        let ghost start = self@;
        let n = left.len();
        let m = right.len();
        let mut a: usize = 0;
        assert(lefts.take(0) =~= Seq::empty());
        while a < n
            invariant
                a <= n,
                n == lefts.len(),
                m == rights.len(),
                lefts == left.terms(),
                rights == right.terms(),
                self@ == accumulate(start, noise_rows(lefts.take(a as int), rights, *value)),
            decreases n - a,
        {
            let ghost rows = noise_rows(lefts.take(a as int), rights, *value);
            let ghost row = noise_row(lefts[a as int], rights, *value);
            let scaled = coeff_mul(value, left.value_at(a));
            let mut b: usize = 0;
            assert(rows + row.take(0) =~= rows);
            while b < m
                invariant
                    b <= m,
                    a < n,
                    n == lefts.len(),
                    m == rights.len(),
                    lefts == left.terms(),
                    rights == right.terms(),
                    row == noise_row(lefts[a as int], rights, *value),
                    scaled == coeff_product(*value, lefts[a as int].1),
                    self@ == accumulate(start, rows + row.take(b as int)),
                decreases m - b,
            {
                proof {
                    lemma_accumulate_push(
                        start,
                        rows + row.take(b as int),
                        row[b as int].0,
                        row[b as int].1,
                    );
                    assert((rows + row.take(b as int)).push(row[b as int]) =~= rows + row.take(
                        b + 1,
                    ));
                }
                let factor = coeff_conj(right.value_at(b));
                let coefficient = coeff_mul(&scaled, &factor);
                let _ = self.add_operator_product(
                    (left.key_at(a).copy_key(), right.key_at(b).copy_key()),
                    coefficient,
                );
                b += 1;
            }
            proof {
                assert(row.take(b as int) =~= row);
                assert(lefts.take(a + 1).drop_last() =~= lefts.take(a as int));
                assert(lefts.take(a + 1).last() == lefts[a as int]);
            }
            a += 1;
        }
        assert(lefts.take(a as int) =~= lefts);
    }
}

} // verus!
