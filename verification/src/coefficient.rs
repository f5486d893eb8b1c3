//! Coefficients of operator terms.
//!
//! A coefficient is a complex number whose real and imaginary part are each a
//! floating-point literal or a symbolic expression. All arithmetic on
//! coefficients is done by `qoqo_calculator`. This module declares its types
//! and gives a name to the result of each operation that the algebra needs:
//! the verifier knows coefficients only by these names.

use crate::sign::Phase;
use crate::sign::Sign;
use qoqo_calculator::CalculatorComplex;
use qoqo_calculator::CalculatorFloat;
use vstd::prelude::*;

verus! {

/// `qoqo_calculator::CalculatorComplex`, opaque to the verifier.
#[verifier::external_type_specification]
#[verifier::external_body]
pub struct ExCalculatorComplex(CalculatorComplex);

/// `qoqo_calculator::CalculatorFloat`, opaque to the verifier.
#[verifier::external_type_specification]
#[verifier::external_body]
pub struct ExCalculatorFloat(CalculatorFloat);

/// The coefficient that `CalculatorComplex::new(re, im)` builds from two integers.
pub uninterp spec fn coeff_of_ints(re: int, im: int) -> CalculatorComplex;

/// The coefficient that `CalculatorComplex::from` builds from a real value.
pub uninterp spec fn coeff_of_real(re: CalculatorFloat) -> CalculatorComplex;

/// The coefficient that `CalculatorComplex::new` builds from a real and an
/// imaginary part.
pub uninterp spec fn coeff_of_parts(re: CalculatorFloat, im: CalculatorFloat) -> CalculatorComplex;

/// The result of `a + b` on coefficients.
pub uninterp spec fn coeff_sum(a: CalculatorComplex, b: CalculatorComplex) -> CalculatorComplex;

/// The result of `a * b` on coefficients.
pub uninterp spec fn coeff_product(a: CalculatorComplex, b: CalculatorComplex) -> CalculatorComplex;

/// The result of `-a` on a coefficient.
pub uninterp spec fn coeff_negation(a: CalculatorComplex) -> CalculatorComplex;

/// The result of `a.conj()` on a coefficient.
pub uninterp spec fn coeff_conjugate(a: CalculatorComplex) -> CalculatorComplex;

/// Whether `a == CalculatorComplex::ZERO`: both parts are the float zero.
pub uninterp spec fn coeff_vanishes(a: CalculatorComplex) -> bool;

/// Whether `a == b` as `qoqo_calculator` compares coefficients.
pub uninterp spec fn coeff_same(a: CalculatorComplex, b: CalculatorComplex) -> bool;

/// Whether the imaginary part of `a` is the float zero.
pub uninterp spec fn coeff_is_real(a: CalculatorComplex) -> bool;

/// The real value that `CalculatorFloat::from` builds from an integer.
pub uninterp spec fn real_of_int(n: int) -> CalculatorFloat;

/// The result of `a.recip()`: the reciprocal of a real value.
pub uninterp spec fn real_reciprocal(a: CalculatorFloat) -> CalculatorFloat;

/// The real part of a coefficient.
pub uninterp spec fn coeff_re(a: CalculatorComplex) -> CalculatorFloat;

/// The imaginary part of a coefficient.
pub uninterp spec fn coeff_im(a: CalculatorComplex) -> CalculatorFloat;

/// The result of `a.norm()`: the magnitude of a coefficient.
pub uninterp spec fn coeff_norm(a: CalculatorComplex) -> CalculatorFloat;

/// Whether a real value is a float literal and no symbolic expression.
pub uninterp spec fn real_is_numeric(a: CalculatorFloat) -> bool;

/// The result of `a - b` on real values.
pub uninterp spec fn real_difference(a: CalculatorFloat, b: CalculatorFloat) -> CalculatorFloat;

/// The result of `a.signum()` on a real value.
pub uninterp spec fn real_signum(a: CalculatorFloat) -> CalculatorFloat;

/// Whether `a == b` as `qoqo_calculator` compares real values.
pub uninterp spec fn real_same(a: CalculatorFloat, b: CalculatorFloat) -> bool;

/// Whether a coefficient has a symbolic expression as real or as imaginary
/// part.
pub open spec fn coeff_is_symbolic(c: CalculatorComplex) -> bool {
    !real_is_numeric(coeff_re(c)) || !real_is_numeric(coeff_im(c))
}

/// Whether the magnitude of a coefficient is above a threshold: the
/// difference of the threshold and the magnitude has the sign `-1`.
pub open spec fn coeff_exceeds(c: CalculatorComplex, threshold: CalculatorFloat) -> bool {
    real_same(real_signum(real_difference(threshold, coeff_norm(c))), real_of_int(-1))
}

/// Whether a term with the given coefficient stays when an operator is
/// truncated: a symbolic coefficient always stays, a number stays where its
/// magnitude is above the threshold.
pub open spec fn survives_truncation(c: CalculatorComplex, threshold: CalculatorFloat) -> bool {
    coeff_is_symbolic(c) || coeff_exceeds(c, threshold)
}

/// The text of a coefficient, as `qoqo_calculator` displays it.
pub uninterp spec fn coeff_display(a: CalculatorComplex) -> Seq<char>;

/// The coefficient one half.
pub open spec fn coeff_half() -> CalculatorComplex {
    coeff_of_real(real_reciprocal(real_of_int(2)))
}

/// The coefficient zero, as `get` reports it for a term that is not there.
pub open spec fn coeff_zero() -> CalculatorComplex {
    coeff_of_ints(0, 0)
}

/// The coefficient that stands for a phase.
pub open spec fn coeff_of_phase(phase: Phase) -> CalculatorComplex {
    coeff_of_ints(phase.re(), phase.im())
}

/// The coefficient that stands for a sign.
pub open spec fn coeff_of_sign(sign: Sign) -> CalculatorComplex {
    coeff_of_ints(sign.value(), 0)
}

/// Builds the coefficient `re + i * im` from two integers.
///
/// Calls `CalculatorComplex::new`, which converts each integer to a float
/// literal. The contract names the result.
#[verifier::external_body]
pub(crate) fn coeff_from_ints(re: i32, im: i32) -> (r: CalculatorComplex)
    ensures
        r == coeff_of_ints(re as int, im as int),
{
    CalculatorComplex::new(re, im)
}

/// Builds a coefficient from a real value.
///
/// Calls `CalculatorComplex::from`, which takes the value as real part and
/// the float zero as imaginary part. The contract names the result and says
/// that it has no imaginary part.
#[verifier::external_body]
pub(crate) fn coeff_from_real(re: &CalculatorFloat) -> (r: CalculatorComplex)
    ensures
        r == coeff_of_real(*re),
        coeff_is_real(r),
{
    CalculatorComplex::from(re.clone())
}

/// Builds a coefficient from its real and its imaginary part.
///
/// Calls `CalculatorComplex::new`. The contract names the result.
#[verifier::external_body]
pub(crate) fn coeff_from_parts(re: &CalculatorFloat, im: &CalculatorFloat) -> (r: CalculatorComplex)
    ensures
        r == coeff_of_parts(*re, *im),
{
    CalculatorComplex::new(re.clone(), im.clone())
}

/// Copies a coefficient.
///
/// Calls the derived `Clone::clone` of `CalculatorComplex`, which copies
/// both parts as they are.
#[verifier::external_body]
pub(crate) fn coeff_clone(a: &CalculatorComplex) -> (r: CalculatorComplex)
    ensures
        r == *a,
{
    a.clone()
}

/// Adds two coefficients.
///
/// Calls `Add::add` of `CalculatorComplex`. The contract names the result.
#[verifier::external_body]
pub(crate) fn coeff_add(a: &CalculatorComplex, b: &CalculatorComplex) -> (r: CalculatorComplex)
    ensures
        r == coeff_sum(*a, *b),
{
    a.clone() + b.clone()
}

/// Multiplies two coefficients.
///
/// Calls `Mul::mul` of `CalculatorComplex`. The contract names the result.
#[verifier::external_body]
pub(crate) fn coeff_mul(a: &CalculatorComplex, b: &CalculatorComplex) -> (r: CalculatorComplex)
    ensures
        r == coeff_product(*a, *b),
{
    a.clone() * b.clone()
}

/// Negates a coefficient.
///
/// Calls `Neg::neg` of `CalculatorComplex`. The contract names the result.
#[verifier::external_body]
pub(crate) fn coeff_neg(a: &CalculatorComplex) -> (r: CalculatorComplex)
    ensures
        r == coeff_negation(*a),
{
    -a.clone()
}

/// Conjugates a coefficient.
///
/// Calls `CalculatorComplex::conj`. The contract names the result.
#[verifier::external_body]
pub(crate) fn coeff_conj(a: &CalculatorComplex) -> (r: CalculatorComplex)
    ensures
        r == coeff_conjugate(*a),
{
    a.conj()
}

/// Whether a coefficient is the exact zero.
///
/// Calls the derived `PartialEq::eq` of `CalculatorComplex` against its
/// constant `ZERO`. The contract names the result.
#[verifier::external_body]
pub(crate) fn coeff_is_zero(a: &CalculatorComplex) -> (r: bool)
    ensures
        r == coeff_vanishes(*a),
{
    *a == CalculatorComplex::ZERO
}

/// Whether two coefficients are equal.
///
/// Calls the derived `PartialEq::eq` of `CalculatorComplex`. The contract
/// names the result.
#[verifier::external_body]
pub(crate) fn coeff_eq(a: &CalculatorComplex, b: &CalculatorComplex) -> (r: bool)
    ensures
        r == coeff_same(*a, *b),
{
    a == b
}

/// Whether a coefficient has the float zero as imaginary part.
///
/// Calls the derived `PartialEq::eq` of `CalculatorFloat` on the imaginary
/// part against the constant `ZERO`. The contract names the result.
#[verifier::external_body]
pub(crate) fn coeff_has_no_imaginary_part(a: &CalculatorComplex) -> (r: bool)
    ensures
        r == coeff_is_real(*a),
{
    a.im == CalculatorFloat::ZERO
}

/// The real part of a coefficient.
///
/// Copies the field `re` of `CalculatorComplex`. The contract names the
/// result, and says that a coefficient is what `CalculatorComplex::new`
/// builds from its two parts: the type has these two fields and no other.
#[verifier::external_body]
pub(crate) fn coeff_real_part(a: &CalculatorComplex) -> (r: CalculatorFloat)
    ensures
        r == coeff_re(*a),
        *a == coeff_of_parts(r, coeff_im(*a)),
{
    a.re.clone()
}

/// The imaginary part of a coefficient.
///
/// Copies the field `im` of `CalculatorComplex`. The contract names the
/// result.
#[verifier::external_body]
pub(crate) fn coeff_imaginary_part(a: &CalculatorComplex) -> (r: CalculatorFloat)
    ensures
        r == coeff_im(*a),
{
    a.im.clone()
}

/// The magnitude of a coefficient.
///
/// Calls `CalculatorComplex::norm`. The contract names the result.
#[verifier::external_body]
pub(crate) fn coeff_magnitude(a: &CalculatorComplex) -> (r: CalculatorFloat)
    ensures
        r == coeff_norm(*a),
{
    a.norm()
}

/// Whether a real value is a float literal.
///
/// Calls `CalculatorFloat::is_float`. The contract names the result.
#[verifier::external_body]
pub(crate) fn real_is_float(a: &CalculatorFloat) -> (r: bool)
    ensures
        r == real_is_numeric(*a),
{
    a.is_float()
}

/// The difference of two real values.
///
/// Calls `Sub::sub` of `CalculatorFloat`. The contract names the result.
#[verifier::external_body]
pub(crate) fn real_sub(a: &CalculatorFloat, b: &CalculatorFloat) -> (r: CalculatorFloat)
    ensures
        r == real_difference(*a, *b),
{
    a.clone() - b.clone()
}

/// The sign of a real value, as a real value.
///
/// Calls `CalculatorFloat::signum`. The contract names the result.
#[verifier::external_body]
pub(crate) fn real_sign(a: &CalculatorFloat) -> (r: CalculatorFloat)
    ensures
        r == real_signum(*a),
{
    a.signum()
}

/// Whether two real values are equal.
///
/// Calls the derived `PartialEq::eq` of `CalculatorFloat`. The contract
/// names the result.
#[verifier::external_body]
pub(crate) fn real_eq(a: &CalculatorFloat, b: &CalculatorFloat) -> (r: bool)
    ensures
        r == real_same(*a, *b),
{
    a == b
}

/// Whether a term with the given coefficient stays when an operator is
/// truncated at the given threshold.
pub fn coeff_survives(c: &CalculatorComplex, threshold: &CalculatorFloat) -> (r: bool)
    ensures
        r == survives_truncation(*c, *threshold),
{
    if !real_is_float(&coeff_real_part(c)) || !real_is_float(&coeff_imaginary_part(c)) {
        return true;
    }
    let difference = real_sub(threshold, &coeff_magnitude(c));
    real_eq(&real_sign(&difference), &real_from_int(-1))
}

/// The text of a coefficient.
///
/// Formats the coefficient with its `Display`, which writes
/// `(re + i * im)` with each part as the calculator displays it. The
/// contract names the result.
#[verifier::external_body]
pub(crate) fn coeff_text(a: &CalculatorComplex) -> (r: String)
    ensures
        r@ == coeff_display(*a),
{
    format!("{}", a)
}

/// Builds a real value from an integer.
///
/// Calls `CalculatorFloat::from`, which converts the integer to a float
/// literal. The contract names the result.
#[verifier::external_body]
pub(crate) fn real_from_int(n: i32) -> (r: CalculatorFloat)
    ensures
        r == real_of_int(n as int),
{
    CalculatorFloat::from(n)
}

/// The reciprocal of a real value.
///
/// Calls `CalculatorFloat::recip`. The contract names the result.
#[verifier::external_body]
pub(crate) fn real_recip(a: &CalculatorFloat) -> (r: CalculatorFloat)
    ensures
        r == real_reciprocal(*a),
{
    a.recip()
}

/// The coefficient one half.
pub fn coeff_one_half() -> (r: CalculatorComplex)
    ensures
        r == coeff_half(),
{
    coeff_from_real(&real_recip(&real_from_int(2)))
}

/// The coefficient of a phase.
pub fn coeff_from_phase(phase: Phase) -> (r: CalculatorComplex)
    ensures
        r == coeff_of_phase(phase),
{
    coeff_from_ints(phase.real_part(), phase.imaginary_part())
}

/// The coefficient of a sign.
pub fn coeff_from_sign(sign: Sign) -> (r: CalculatorComplex)
    ensures
        r == coeff_of_sign(sign),
{
    coeff_from_ints(sign.to_int(), 0)
}

} // verus!
