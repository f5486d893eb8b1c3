//! What a product must offer to serve as the key of an operator.

use crate::sign::Phase;
use crate::sign::Sign;
use vstd::prelude::*;

verus! {

/// A canonical product that can label the terms of an operator.
///
/// The view of a key is its mathematical content; two keys label the same
/// term exactly when their views are equal.
pub trait OperatorKey: View + Sized {
    /// How a caller describes the number of single-site operators in a key.
    type Shape;

    /// One more than the largest site or mode that the key touches.
    spec fn span(v: Self::V) -> nat;

    /// Whether a key has the given numbers of single-site operators.
    spec fn has_shape(v: Self::V, shape: Self::Shape) -> bool;

    /// Whether two keys label the same term.
    fn same_key(&self, other: &Self) -> (b: bool)
        ensures
            b == (self@ == other@),
    ;

    /// A second key for the same term.
    fn copy_key(&self) -> (r: Self)
        ensures
            r@ == self@,
    ;

    /// One more than the largest site or mode that the key touches.
    fn key_span(&self) -> (n: usize)
        ensures
            n == Self::span(self@),
    ;

    /// Whether the key has the given numbers of single-site operators.
    fn key_has_shape(&self, shape: &Self::Shape) -> (b: bool)
        ensures
            b == Self::has_shape(self@, *shape),
    ;
}

/// A key whose adjoint is a key of its kind again, up to a sign.
pub trait ConjugateKey: OperatorKey {
    /// The key of the adjoint term.
    spec fn conjugate(v: Self::V) -> Self::V;

    /// The factor that the adjoint term carries beside its key.
    spec fn conjugate_sign(v: Self::V) -> Sign;

    /// The adjoint of a term reaches as far as the term.
    proof fn lemma_conjugate_span(v: Self::V)
        ensures
            Self::span(Self::conjugate(v)) == Self::span(v),
    ;

    /// The key of the adjoint term and the factor it carries.
    fn key_conjugate(&self) -> (r: (Self, Sign))
        ensures
            r.0@ == Self::conjugate(self@),
            r.1 == Self::conjugate_sign(self@),
    ;

    /// Whether the term of the key is its own adjoint.
    spec fn natural_hermitian(v: Self::V) -> bool;

    /// Whether the term of the key is its own adjoint.
    fn key_is_natural_hermitian(&self) -> (b: bool)
        ensures
            b == Self::natural_hermitian(self@),
    ;
}

/// A key whose products with other keys of its kind are sums of such keys.
pub trait MultiplyKey: OperatorKey {
    /// The terms of the product of two keys, each with its phase.
    spec fn product(a: Self::V, b: Self::V) -> Seq<(Self::V, Phase)>;

    /// No term of a product reaches further than its factors.
    proof fn lemma_product_span(a: Self::V, b: Self::V)
        ensures
            forall|i: int|
                0 <= i < Self::product(a, b).len() ==> Self::span(
                    (#[trigger] Self::product(a, b)[i]).0,
                ) <= Self::span(a) || Self::span(Self::product(a, b)[i].0) <= Self::span(b),
    ;

    /// Multiplies two keys.
    fn key_product(&self, other: &Self) -> (r: Vec<(Self, Phase)>)
        ensures
            r@.len() == Self::product(self@, other@).len(),
            forall|i: int|
                0 <= i < r@.len() ==> (#[trigger] r@[i]).0@ == Self::product(self@, other@)[i].0
                    && r@[i].1 == Self::product(self@, other@)[i].1,
    ;
}

/// The contents of a row of texts.
pub open spec fn texts_view(texts: Seq<String>) -> Seq<Seq<char>> {
    Seq::new(texts.len(), |i: int| texts[i]@)
}

/// A key that can be written as text and read back.
pub trait TextKey: OperatorKey {
    /// How many texts name a key of this kind: one for a product, two for a
    /// pair of products.
    spec fn arity() -> nat;

    /// Whether a value is a key in canonical form.
    spec fn canonical(v: Self::V) -> bool;

    /// The texts that name a key.
    spec fn texts(v: Self::V) -> Seq<Seq<char>>;

    /// The key that a row of texts names, where it names one.
    spec fn of_texts(texts: Seq<Seq<char>>) -> Option<Self::V>;

    /// The texts of a key in canonical form name the key.
    proof fn lemma_texts(v: Self::V)
        requires
            Self::canonical(v),
        ensures
            Self::texts(v).len() == Self::arity(),
            Self::of_texts(Self::texts(v)) == Some(v),
    ;

    /// The name of the family of operators that the key belongs to.
    spec fn family() -> Seq<char>;

    /// The name of the family of operators that the key belongs to.
    fn key_family() -> (r: String)
        ensures
            r@ == Self::family(),
    ;

    /// How many texts name a key of this kind.
    fn key_arity() -> (n: usize)
        ensures
            n == Self::arity(),
            1 <= n <= 2,
    ;

    /// The texts that name the key. The key is in canonical form.
    fn key_texts(&self) -> (r: Vec<String>)
        ensures
            texts_view(r@) == Self::texts(self@),
            r@.len() == Self::arity(),
            Self::canonical(self@),
    ;

    /// The key that the texts from place `from` on name, where they name one.
    fn key_from_texts(texts: &Vec<String>, from: usize) -> (r: Option<Self>)
        requires
            from + Self::arity() <= texts@.len(),
        ensures
            match r {
                Some(key) => Self::of_texts(
                    texts_view(texts@).subrange(from as int, from + Self::arity()),
                ) == Some(key@),
                None => Self::of_texts(
                    texts_view(texts@).subrange(from as int, from + Self::arity()),
                ).is_none(),
            },
    ;
}

/// A key that one text names.
pub trait SingleTextKey: TextKey {
    /// One text names a key of this kind.
    proof fn lemma_single()
        ensures
            Self::arity() == 1,
    ;
}

/// The contents of a row of index lists.
pub open spec fn rows_view(rows: Seq<Vec<usize>>) -> Seq<Seq<usize>> {
    Seq::new(rows.len(), |i: int| rows[i]@)
}

/// A key that can be written as index lists and read back.
pub trait CompactKey: OperatorKey {
    /// How many index lists describe a key of this kind.
    spec fn row_count() -> nat;

    /// Whether a value is a key in canonical form.
    spec fn compact_canonical(v: Self::V) -> bool;

    /// The index lists that describe a key.
    spec fn rows(v: Self::V) -> Seq<Seq<usize>>;

    /// The key that index lists describe, where they describe one.
    spec fn of_rows(rows: Seq<Seq<usize>>) -> Option<Self::V>;

    /// The index lists of a key in canonical form describe the key.
    proof fn lemma_rows(v: Self::V)
        requires
            Self::compact_canonical(v),
        ensures
            Self::rows(v).len() == Self::row_count(),
            Self::of_rows(Self::rows(v)) == Some(v),
    ;

    /// How many index lists describe a key of this kind.
    fn key_row_count() -> (n: usize)
        ensures
            n == Self::row_count(),
            1 <= n <= 4,
    ;

    /// The index lists that describe the key. The key is in canonical form.
    fn key_rows(&self) -> (r: Vec<Vec<usize>>)
        ensures
            rows_view(r@) == Self::rows(self@),
            r@.len() == Self::row_count(),
            Self::compact_canonical(self@),
    ;

    /// The key that the index lists from place `from` on describe, where
    /// they describe one.
    fn key_from_rows(rows: &Vec<Vec<usize>>, from: usize) -> (r: Option<Self>)
        requires
            from + Self::row_count() <= rows@.len(),
        ensures
            match r {
                Some(key) => Self::of_rows(
                    rows_view(rows@).subrange(from as int, from + Self::row_count()),
                ) == Some(key@),
                None => Self::of_rows(
                    rows_view(rows@).subrange(from as int, from + Self::row_count()),
                ).is_none(),
            },
    ;
}

/// A key that two index lists describe.
pub trait TwoRowKey: CompactKey {
    /// Two index lists describe a key of this kind.
    proof fn lemma_two_rows()
        ensures
            Self::row_count() == 2,
    ;
}

} // verus!
