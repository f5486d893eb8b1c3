//! The text form of operators and systems.
//!
//! An operator is written as its name and, in braces, a line for each term
//! with the text of its key and its coefficient. A system adds its number
//! of sites or modes behind the name.

use crate::coefficient::{coeff_display, coeff_text};
use crate::key::{texts_view, ConjugateKey, SingleTextKey, TextKey};
use crate::open_system::OpenSystem;
use crate::operator::{CoefficientRule, Operator};
use crate::system::System;
use crate::text::{decimal, push_char, push_decimal};
use qoqo_calculator::CalculatorComplex;
use vstd::prelude::*;

verus! {

/// The label of a key in a line: its text, or its texts in round brackets
/// and parted by commas where there are several.
pub open spec fn key_label(texts: Seq<Seq<char>>) -> Seq<char> {
    if texts.len() == 1 {
        texts[0]
    } else {
        "("@ + joined(texts) + ")"@
    }
}

/// A row of texts, parted by a comma and a blank.
pub open spec fn joined(texts: Seq<Seq<char>>) -> Seq<char>
    decreases texts.len(),
{
    if texts.len() == 0 {
        Seq::empty()
    } else if texts.len() == 1 {
        texts[0]
    } else {
        joined(texts.drop_last()) + ", "@ + texts.last()
    }
}

/// The lines of a row of terms: for each the label of its key, a colon and
/// its coefficient, closed by a comma.
pub open spec fn term_lines<K: TextKey>(terms: Seq<(K::V, CalculatorComplex)>) -> Seq<char>
    decreases terms.len(),
{
    if terms.len() == 0 {
        Seq::empty()
    } else {
        term_lines::<K>(terms.drop_last()) + key_label(K::texts(terms.last().0)) + ": "@
            + coeff_display(terms.last().1) + ",\n"@
    }
}

/// The name of an operator or of a system: the family of its keys, and what
/// it is.
pub open spec fn container_name<K: TextKey, R: CoefficientRule<K>>(system: bool) -> Seq<char> {
    K::family() + if R::hamiltonian() {
        if system {
            "HamiltonianSystem"@
        } else {
            "Hamiltonian"@
        }
    } else {
        if system {
            "System"@
        } else {
            "Operator"@
        }
    }
}

/// The text of an operator.
pub open spec fn operator_text<K: TextKey, R: CoefficientRule<K>>(
    terms: Seq<(K::V, CalculatorComplex)>,
) -> Seq<char> {
    container_name::<K, R>(false) + "{\n"@ + term_lines::<K>(terms) + "}"@
}

/// The text of a system with the given number of sites or modes.
pub open spec fn system_text<K: TextKey, R: CoefficientRule<K>>(
    number: nat,
    terms: Seq<(K::V, CalculatorComplex)>,
) -> Seq<char> {
    container_name::<K, R>(true) + "("@ + decimal(number) + "){\n"@ + term_lines::<K>(terms)
        + "}"@
}

/// The text of an open system with the given number of sites or modes.
pub open spec fn open_system_text<H: TextKey, N: SingleTextKey>(
    number: nat,
    system: Seq<(H::V, CalculatorComplex)>,
    noise: Seq<((N::V, N::V), CalculatorComplex)>,
) -> Seq<char> {
    H::family() + "LindbladOpenSystem("@ + decimal(number) + "){\nSystem: {\n"@ + term_lines::<H>(
        system,
    ) + "}\nNoise: {\n"@ + term_lines::<(N, N)>(noise) + "}\n}"@
}

/// Appends the label of a key to a text.
fn push_label(text: &mut String, texts: &Vec<String>)
    ensures
        final(text)@ == old(text)@ + key_label(texts_view(texts@)),
{
    let ghost all = texts_view(texts@);
    if texts.len() == 1 {
        text.append(texts[0].as_str());
        return ;
    }
    let ghost before = text@;
    push_char(text, '(');
    let mut i: usize = 0;
    proof {
        reveal_strlit("(");
        assert(all.take(0) =~= Seq::<Seq<char>>::empty());
        assert(text@ =~= before + "("@ + joined(all.take(0)));
    }
    while i < texts.len()
        invariant
            i <= texts.len(),
            all == texts_view(texts@),
            text@ == before + "("@ + joined(all.take(i as int)),
        decreases texts.len() - i,
    {
        proof {
            assert(all.take(i + 1).drop_last() =~= all.take(i as int));
            assert(all.take(i + 1).last() == texts@[i as int]@);
        }
        if i > 0 {
            text.append(", ");
        }
        text.append(texts[i].as_str());
        proof {
            if i == 0 {
                assert(joined(all.take(0)) =~= Seq::<char>::empty());
                assert(joined(all.take(1)) == texts@[0]@);
            }
            assert(text@ =~= before + "("@ + joined(all.take(i + 1)));
        }
        i += 1;
    }
    assert(all.take(i as int) =~= all);
    push_char(text, ')');
    proof {
        reveal_strlit(")");
        assert(text@ =~= before + ("("@ + joined(all) + ")"@));
    }
}

impl<K: TextKey, R: CoefficientRule<K>> Operator<K, R> {
    /// Appends a line for each term to a text.
    pub fn push_lines(&self, text: &mut String)
        ensures
            final(text)@ == old(text)@ + term_lines::<K>(self.terms()),
    {
        let n = self.len();
        let mut i: usize = 0;
        assert(self.terms().take(0) =~= Seq::empty());
        assert(text@ =~= old(text)@ + term_lines::<K>(self.terms().take(0)));
        while i < n
            invariant
                i <= n,
                n == self.terms().len(),
                text@ == old(text)@ + term_lines::<K>(self.terms().take(i as int)),
            decreases n - i,
        {
            proof {
                assert(self.terms().take(i + 1).drop_last() =~= self.terms().take(i as int));
                assert(self.terms().take(i + 1).last() == self.terms()[i as int]);
            }
            let ghost before = text@;
            let texts = self.key_at(i).key_texts();
            push_label(text, &texts);
            text.append(": ");
            let value = coeff_text(self.value_at(i));
            text.append(value.as_str());
            text.append(",\n");
            proof {
                assert(text@ =~= before + key_label(K::texts(self.terms()[i as int].0)) + ": "@
                    + coeff_display(self.terms()[i as int].1) + ",\n"@);
                assert(text@ =~= old(text)@ + term_lines::<K>(self.terms().take(i + 1)));
            }
            i += 1;
        }
        assert(self.terms().take(i as int) =~= self.terms());
    }

    /// The name of operators of this kind, or of systems of this kind.
    pub fn name(system: bool) -> (r: String)
        ensures
            r@ == container_name::<K, R>(system),
    {
        let mut r = K::key_family();
        if R::is_hamiltonian() {
            if system {
                r.append("HamiltonianSystem");
            } else {
                r.append("Hamiltonian");
            }
        } else {
            if system {
                r.append("System");
            } else {
                r.append("Operator");
            }
        }
        r
    }

    /// The text of the operator: its name and, in braces, a line for each
    /// term.
    pub fn to_string(&self) -> (text: String)
        ensures
            text@ == operator_text::<K, R>(self.terms()),
    {
        let mut text = Self::name(false);
        text.append("{\n");
        self.push_lines(&mut text);
        text.append("}");
        text
    }
}

impl<K: TextKey, R: CoefficientRule<K>> System<K, R> {
    /// The text of the system: its name, its number of sites or modes in
    /// round brackets and, in braces, a line for each term.
    pub fn to_string(&self) -> (text: String)
        ensures
            text@ == system_text::<K, R>(self.number_modes_spec(), self.terms()),
    {
        let mut text = Operator::<K, R>::name(true);
        text.append("(");
        push_decimal(&mut text, self.number_modes());
        text.append("){\n");
        self.operator().push_lines(&mut text);
        text.append("}");
        text
    }
}

impl<H: TextKey + ConjugateKey, N: SingleTextKey> OpenSystem<H, N> {
    /// The text of the open system: its name, its number of sites or modes
    /// in round brackets and, in braces, the lines of the Hamiltonian and
    /// the lines of the noise.
    pub fn to_string(&self) -> (text: String)
        ensures
            text@ == open_system_text::<H, N>(
                match self.capacity() {
                    Some(declared) => declared as nat,
                    None => self.reach(),
                },
                self.system_rows(),
                self.noise_rows(),
            ),
    {
        let mut text = H::key_family();
        text.append("LindbladOpenSystem(");
        push_decimal(&mut text, self.number_modes());
        text.append("){\nSystem: {\n");
        self.system().operator().push_lines(&mut text);
        text.append("}\nNoise: {\n");
        self.noise().operator().push_lines(&mut text);
        text.append("}\n}");
        text
    }
}

} // verus!
