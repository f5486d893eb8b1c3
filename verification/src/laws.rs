//! Laws of the algebra of operators.
//!
//! Coefficients are added by `qoqo_calculator`, in floating point or as
//! symbolic expressions. Neither addition is associative on all values, and
//! the symbolic one is not commutative. The laws of this module therefore
//! hold for the operators whose coefficients add exactly; what that asks of
//! the coefficients is stated with each law.

use crate::coefficient::{coeff_negation, coeff_sum, coeff_vanishes, coeff_zero};
use crate::operator::{changed, coefficient_in, map_sum, CoefficientChange, TermMap};
use qoqo_calculator::CalculatorComplex;
use vstd::prelude::*;

verus! {

/// No term of an operator has a coefficient that is zero.
pub open spec fn without_zeros<KV>(m: TermMap<KV>) -> bool {
    forall|key: KV| m.contains_key(key) ==> !coeff_vanishes(#[trigger] m[key])
}

/// Zero is neutral for a coefficient in sums.
pub open spec fn zero_is_neutral(x: CalculatorComplex) -> bool {
    coeff_sum(coeff_zero(), x) == x && coeff_sum(x, coeff_zero()) == x
}

/// A coefficient that counts as zero is the zero.
pub open spec fn zero_is_unique(x: CalculatorComplex) -> bool {
    coeff_vanishes(x) ==> x == coeff_zero()
}

/// The coefficients of one product in two operators add in either order.
pub open spec fn sum_commutes_at<KV>(a: TermMap<KV>, b: TermMap<KV>, key: KV) -> bool {
    let x = coefficient_in(a, key);
    let y = coefficient_in(b, key);
    &&& coeff_sum(x, y) == coeff_sum(y, x)
    &&& zero_is_neutral(x)
    &&& zero_is_neutral(y)
}

/// The coefficients of one product in three operators add exactly: in
/// either grouping, with zero neutral, and with no sum that counts as zero
/// without being the zero.
pub open spec fn sum_associates_at<KV>(a: TermMap<KV>, b: TermMap<KV>, c: TermMap<KV>, key: KV) -> bool {
    let x = coefficient_in(a, key);
    let y = coefficient_in(b, key);
    let z = coefficient_in(c, key);
    &&& coeff_sum(coeff_sum(x, y), z) == coeff_sum(x, coeff_sum(y, z))
    &&& zero_is_neutral(x)
    &&& zero_is_neutral(y)
    &&& zero_is_neutral(z)
    &&& zero_is_neutral(coeff_sum(x, y))
    &&& zero_is_neutral(coeff_sum(y, z))
    &&& zero_is_unique(coeff_sum(x, y))
    &&& zero_is_unique(coeff_sum(y, z))
    &&& coeff_vanishes(coeff_zero())
}

/// The sum of operators commutes, `A + B == B + A`, where the coefficients
/// of each product add in either order and zero is neutral for them.
pub proof fn lemma_sum_commutes<KV>(a: TermMap<KV>, b: TermMap<KV>)
    requires
        without_zeros(a),
        without_zeros(b),
        forall|key: KV| a.contains_key(key) || b.contains_key(key) ==> sum_commutes_at(a, b, key),
    ensures
        map_sum(a, b) == map_sum(b, a),
{
    let left = map_sum(a, b);
    let right = map_sum(b, a);
    assert forall|key: KV| #![trigger left.dom().contains(key)] #![trigger right.dom().contains(key)]
        left.dom().contains(key) == right.dom().contains(key) && (left.dom().contains(key)
            ==> left[key] == right[key]) by {
        if a.contains_key(key) || b.contains_key(key) {
            assert(sum_commutes_at(a, b, key));
            if a.contains_key(key) {
                assert(!coeff_vanishes(a[key]));
            }
            if b.contains_key(key) {
                assert(!coeff_vanishes(b[key]));
            }
        }
    }
    assert(left.dom() =~= right.dom());
    assert(left =~= right);
}

/// The sum of operators associates, `(A + B) + C == A + (B + C)`, where the
/// coefficients of each product add exactly.
pub proof fn lemma_sum_associates<KV>(a: TermMap<KV>, b: TermMap<KV>, c: TermMap<KV>)
    requires
        without_zeros(a),
        without_zeros(b),
        without_zeros(c),
        forall|key: KV|
            a.contains_key(key) || b.contains_key(key) || c.contains_key(key) ==> sum_associates_at(
                a,
                b,
                c,
                key,
            ),
    ensures
        map_sum(map_sum(a, b), c) == map_sum(a, map_sum(b, c)),
{
    let ab = map_sum(a, b);
    let bc = map_sum(b, c);
    let left = map_sum(ab, c);
    let right = map_sum(a, bc);
    assert forall|key: KV| #![trigger left.dom().contains(key)] #![trigger right.dom().contains(key)]
        left.dom().contains(key) == right.dom().contains(key) && (left.dom().contains(key)
            ==> left[key] == right[key]) by {
        if a.contains_key(key) || b.contains_key(key) || c.contains_key(key) {
            assert(sum_associates_at(a, b, c, key));
            if a.contains_key(key) {
                assert(!coeff_vanishes(a[key]));
            }
            if b.contains_key(key) {
                assert(!coeff_vanishes(b[key]));
            }
            if c.contains_key(key) {
                assert(!coeff_vanishes(c[key]));
            }
        }
    }
    assert(left.dom() =~= right.dom());
    assert(left =~= right);
}

/// An operator and its negative cancel, `A + (-A) == 0`, where each
/// coefficient and its negative add up to zero and no negative counts as
/// zero itself.
pub proof fn lemma_sum_with_negative<KV>(a: TermMap<KV>)
    requires
        forall|key: KV|
            a.contains_key(key) ==> !coeff_vanishes(coeff_negation(#[trigger] a[key]))
                && coeff_vanishes(coeff_sum(a[key], coeff_negation(a[key]))),
    ensures
        map_sum(a, changed(a, CoefficientChange::Negate)) == Map::<KV, CalculatorComplex>::empty(),
{
    let negative = changed(a, CoefficientChange::Negate);
    let sum = map_sum(a, negative);
    assert forall|key: KV| !sum.contains_key(key) by {
        if a.contains_key(key) {
            assert(negative.contains_key(key));
            assert(negative[key] == coeff_negation(a[key]));
        }
    }
    assert(sum =~= Map::<KV, CalculatorComplex>::empty());
}

} // verus!
