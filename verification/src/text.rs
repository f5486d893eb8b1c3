//! The text form of products: decimal indices and one-letter operator symbols.
//!
//! A product is written as a row of tokens. A token is an index in decimal
//! and a symbol that is no digit, the symbol first (`c12`) or the index first
//! (`12Z`), depending on the kind of product.

use vstd::prelude::*;

verus! {

/// The ten decimal digits.
pub open spec fn is_digit(c: char) -> bool {
    c == '0' || c == '1' || c == '2' || c == '3' || c == '4' || c == '5' || c == '6' || c == '7'
        || c == '8' || c == '9'
}

/// The value of a decimal digit.
pub open spec fn digit_value(c: char) -> nat {
    if c == '1' {
        1
    } else if c == '2' {
        2
    } else if c == '3' {
        3
    } else if c == '4' {
        4
    } else if c == '5' {
        5
    } else if c == '6' {
        6
    } else if c == '7' {
        7
    } else if c == '8' {
        8
    } else if c == '9' {
        9
    } else {
        0
    }
}

/// The digit that stands for a value below ten.
pub open spec fn digit_char(d: nat) -> char {
    if d == 1 {
        '1'
    } else if d == 2 {
        '2'
    } else if d == 3 {
        '3'
    } else if d == 4 {
        '4'
    } else if d == 5 {
        '5'
    } else if d == 6 {
        '6'
    } else if d == 7 {
        '7'
    } else if d == 8 {
        '8'
    } else if d == 9 {
        '9'
    } else {
        '0'
    }
}

/// The decimal numeral of a number, without leading zeros.
pub open spec fn decimal(n: nat) -> Seq<char>
    decreases n,
{
    if n < 10 {
        seq![digit_char(n)]
    } else {
        decimal(n / 10).push(digit_char(n % 10))
    }
}

/// The number that a row of digits denotes.
pub open spec fn number_of(s: Seq<char>) -> nat
    decreases s.len(),
{
    if s.len() == 0 {
        0
    } else {
        10 * number_of(s.drop_last()) + digit_value(s.last())
    }
}

/// How many digits a text starts with.
pub open spec fn leading_digits(s: Seq<char>) -> nat
    decreases s.len(),
{
    if s.len() > 0 && is_digit(s[0]) {
        1 + leading_digits(s.drop_first())
    } else {
        0
    }
}

/// The text of one token.
pub open spec fn render_token(token: (char, usize), number_first: bool) -> Seq<char> {
    if number_first {
        decimal(token.1 as nat).push(token.0)
    } else {
        seq![token.0] + decimal(token.1 as nat)
    }
}

/// The text of a row of tokens.
pub open spec fn render(tokens: Seq<(char, usize)>, number_first: bool) -> Seq<char>
    decreases tokens.len(),
{
    if tokens.len() == 0 {
        Seq::empty()
    } else {
        render_token(tokens[0], number_first) + render(tokens.drop_first(), number_first)
    }
}

/// Puts a token in front of a row of tokens, where there is one.
pub open spec fn prepend(token: (char, usize), rest: Option<Seq<(char, usize)>>) -> Option<
    Seq<(char, usize)>,
> {
    match rest {
        Some(r) => Some(seq![token] + r),
        None => None,
    }
}

/// The tokens that a text consists of, or `None` where the text is no row
/// of tokens: a symbol that is a digit, an index with no digits, or an index
/// too large for the machine.
pub open spec fn scan(s: Seq<char>, number_first: bool) -> Option<Seq<(char, usize)>>
    decreases s.len(),
{
    if s.len() == 0 {
        Some(Seq::empty())
    } else if number_first {
        let k = leading_digits(s) as int;
        if k == 0 || k >= s.len() || number_of(s.take(k)) > usize::MAX {
            None
        } else {
            prepend((s[k], number_of(s.take(k)) as usize), scan(s.skip(k + 1), number_first))
        }
    } else {
        let k = leading_digits(s.drop_first()) as int;
        if is_digit(s[0]) || k == 0 || 1 + k > s.len() || number_of(s.subrange(1, 1 + k))
            > usize::MAX {
            None
        } else {
            prepend((s[0], number_of(s.subrange(1, 1 + k)) as usize), scan(s.skip(1 + k), number_first))
        }
    }
}

/// A text that starts with `k` digits and goes on with something else
/// has exactly `k` leading digits.
pub proof fn lemma_leading_digits(s: Seq<char>, k: int)
    requires
        0 <= k <= s.len(),
        forall|i: int| 0 <= i < k ==> is_digit(s[i]),
        k < s.len() ==> !is_digit(s[k]),
    ensures
        leading_digits(s) == k,
    decreases k,
{
    if k > 0 {
        lemma_leading_digits(s.drop_first(), k - 1);
    }
}

/// A numeral consists of digits, has at least one, and denotes its number.
pub proof fn lemma_decimal(n: nat)
    ensures
        decimal(n).len() >= 1,
        forall|i: int| 0 <= i < decimal(n).len() ==> is_digit(#[trigger] decimal(n)[i]),
        number_of(decimal(n)) == n,
    decreases n,
{
    if n < 10 {
        assert(decimal(n).drop_last() =~= Seq::<char>::empty());
        assert(number_of(decimal(n).drop_last()) == 0);
    } else {
        lemma_decimal(n / 10);
        assert(decimal(n).drop_last() =~= decimal(n / 10));
    }
}

/// Reading a rendered row of tokens gives the tokens back.
pub proof fn lemma_scan_render(tokens: Seq<(char, usize)>, number_first: bool)
    requires
        forall|i: int| 0 <= i < tokens.len() ==> !is_digit(#[trigger] tokens[i].0),
    ensures
        scan(render(tokens, number_first), number_first) == Some(tokens),
    decreases tokens.len(),
{
    if tokens.len() > 0 {
        let t = tokens[0];
        let rest = tokens.drop_first();
        let tail = render(rest, number_first);
        let s = render(tokens, number_first);
        let d = decimal(t.1 as nat);
        let k = d.len() as int;
        lemma_decimal(t.1 as nat);
        if rest.len() > 0 {
            assert(rest[0] == tokens[1]);
        }
        assert forall|i: int| 0 <= i < rest.len() implies !is_digit(#[trigger] rest[i].0) by {
            assert(rest[i] == tokens[i + 1]);
        }
        lemma_scan_render(rest, number_first);
        if number_first {
            assert(s =~= d.push(t.0) + tail);
            assert forall|i: int| 0 <= i < k implies is_digit(s[i]) by {
                assert(s[i] == d[i]);
            }
            assert(s[k] == t.0);
            lemma_leading_digits(s, k);
            assert(s.take(k) =~= d);
            assert(s.skip(k + 1) =~= tail);
        } else {
            assert(s =~= seq![t.0] + d + tail);
            let body = s.drop_first();
            assert(body =~= d + tail);
            assert forall|i: int| 0 <= i < k implies is_digit(body[i]) by {
                assert(body[i] == d[i]);
            }
            if k < body.len() {
                assert(tail.len() > 0);
                assert(rest.len() > 0);
                let next = render_token(rest[0], number_first);
                assert(tail =~= next + render(rest.drop_first(), number_first));
                assert(body[k] == tail[0]);
                assert(tail[0] == rest[0].0);
            }
            lemma_leading_digits(body, k);
            assert(s.subrange(1, 1 + k) =~= d);
            assert(s.skip(1 + k) =~= tail);
        }
        assert(seq![t] + rest =~= tokens);
    } else {
        assert(render(tokens, number_first) =~= Seq::<char>::empty());
        assert(tokens =~= Seq::<(char, usize)>::empty());
    }
}

/// Each character of a rendered row of tokens is a digit or the letter of
/// a token.
pub proof fn lemma_render_chars(tokens: Seq<(char, usize)>, number_first: bool)
    ensures
        forall|k: int|
            0 <= k < render(tokens, number_first).len() ==> is_digit(
                #[trigger] render(tokens, number_first)[k],
            ) || exists|i: int|
                0 <= i < tokens.len() && (#[trigger] tokens[i]).0 == render(tokens, number_first)[k],
    decreases tokens.len(),
{
    if tokens.len() > 0 {
        let t = tokens[0];
        let rest = tokens.drop_first();
        let head = render_token(t, number_first);
        let tail = render(rest, number_first);
        let s = render(tokens, number_first);
        lemma_decimal(t.1 as nat);
        lemma_render_chars(rest, number_first);
        assert forall|k: int| 0 <= k < s.len() implies is_digit(#[trigger] s[k]) || exists|i: int|
            0 <= i < tokens.len() && (#[trigger] tokens[i]).0 == s[k] by {
            if k < head.len() {
                assert(s[k] == head[k]);
                if !is_digit(s[k]) {
                    assert(tokens[0].0 == s[k]);
                }
            } else {
                let c = tail[k - head.len()];
                assert(s[k] == c);
                if !is_digit(c) {
                    let i = choose|i: int| 0 <= i < rest.len() && (#[trigger] rest[i]).0 == c;
                    assert(tokens[i + 1] == rest[i]);
                }
            }
        }
    }
}

/// Appends one character to a text.
///
/// Calls `String::push`, which the standard library documents as appending
/// the character to the end of the string.
#[verifier::external_body]
pub(crate) fn push_char(text: &mut String, c: char)
    ensures
        final(text)@ == old(text)@.push(c),
{
    text.push(c)
}

/// Whether a character is a decimal digit.
pub fn char_is_digit(c: char) -> (r: bool)
    ensures
        r == is_digit(c),
{
    c == '0' || c == '1' || c == '2' || c == '3' || c == '4' || c == '5' || c == '6' || c == '7'
        || c == '8' || c == '9'
}

fn char_digit_value(c: char) -> (r: usize)
    ensures
        r == digit_value(c),
        r < 10,
{
    if c == '1' {
        1
    } else if c == '2' {
        2
    } else if c == '3' {
        3
    } else if c == '4' {
        4
    } else if c == '5' {
        5
    } else if c == '6' {
        6
    } else if c == '7' {
        7
    } else if c == '8' {
        8
    } else if c == '9' {
        9
    } else {
        0
    }
}

fn char_of_digit(d: usize) -> (r: char)
    requires
        d < 10,
    ensures
        r == digit_char(d as nat),
{
    if d == 1 {
        '1'
    } else if d == 2 {
        '2'
    } else if d == 3 {
        '3'
    } else if d == 4 {
        '4'
    } else if d == 5 {
        '5'
    } else if d == 6 {
        '6'
    } else if d == 7 {
        '7'
    } else if d == 8 {
        '8'
    } else if d == 9 {
        '9'
    } else {
        '0'
    }
}

/// Appends the decimal numeral of `n` to a text.
pub fn push_decimal(text: &mut String, n: usize)
    ensures
        final(text)@ == old(text)@ + decimal(n as nat),
    decreases n,
{
    if n >= 10 {
        push_decimal(text, n / 10);
    }
    push_char(text, char_of_digit(n % 10));
    proof {
        if n >= 10 {
            assert(final(text)@ =~= old(text)@ + decimal(n as nat));
        } else {
            assert(final(text)@ =~= old(text)@ + decimal(n as nat));
        }
    }
}

/// Appends the text of one token.
pub fn push_token(text: &mut String, letter: char, number: usize, number_first: bool)
    ensures
        final(text)@ == old(text)@ + render_token((letter, number), number_first),
{
    if number_first {
        push_decimal(text, number);
        push_char(text, letter);
    } else {
        push_char(text, letter);
        push_decimal(text, number);
    }
    proof {
        assert(final(text)@ =~= old(text)@ + render_token((letter, number), number_first));
    }
}

/// Reads the digits that start at `start` and tells where they end and what
/// number they denote; the number is `None` where it does not fit the machine.
fn read_number(text: &str, start: usize, len: usize) -> (r: (usize, Option<usize>))
    requires
        len == text@.len(),
        start <= len,
    ensures
        r.0 == start + leading_digits(text@.skip(start as int)),
        r.0 <= len,
        match r.1 {
            Some(v) => v == number_of(text@.subrange(start as int, r.0 as int)),
            None => number_of(text@.subrange(start as int, r.0 as int)) > usize::MAX,
        },
{
    let mut j: usize = start;
    let mut acc: Option<usize> = Some(0);
    assert(text@.subrange(start as int, start as int) =~= Seq::<char>::empty());
    while j < len && char_is_digit(text.get_char(j))
        invariant
            len == text@.len(),
            start <= j <= len,
            forall|i: int| start <= i < j ==> is_digit(text@[i]),
            match acc {
                Some(v) => v == number_of(text@.subrange(start as int, j as int)),
                None => number_of(text@.subrange(start as int, j as int)) > usize::MAX,
            },
        decreases len - j,
    {
        let d = char_digit_value(text.get_char(j));
        proof {
            let next = text@.subrange(start as int, j + 1);
            assert(next.drop_last() =~= text@.subrange(start as int, j as int));
            assert(next.last() == text@[j as int]);
        }
        acc = match acc {
            Some(v) => if v > (usize::MAX - d) / 10 {
                None
            } else {
                Some(10 * v + d)
            },
            None => None,
        };
        j += 1;
    }
    proof {
        let tail = text@.skip(start as int);
        assert forall|i: int| 0 <= i < j - start implies is_digit(tail[i]) by {
            assert(tail[i] == text@[start + i]);
        }
        if j - start < tail.len() {
            assert(tail[j - start] == text@[j as int]);
        }
        lemma_leading_digits(tail, j - start);
    }
    (j, acc)
}

/// Reads a text as a row of tokens.
///
/// Returns the tokens in the order of the text, or `None` where the text is
/// no row of tokens.
pub fn scan_tokens(text: &str, number_first: bool) -> (r: Option<Vec<(char, usize)>>)
    ensures
        match r {
            Some(tokens) => scan(text@, number_first) == Some(tokens@),
            None => scan(text@, number_first).is_none(),
        },
{
    let len = text.unicode_len();
    let mut tokens: Vec<(char, usize)> = Vec::new();
    let mut pos: usize = 0;
    assert(text@.skip(0) =~= text@);
    while pos < len
        invariant
            len == text@.len(),
            pos <= len,
            match scan(text@.skip(pos as int), number_first) {
                Some(rest) => scan(text@, number_first) == Some(tokens@ + rest),
                None => scan(text@, number_first).is_none(),
            },
        decreases len - pos,
    {
        let ghost s = text@.skip(pos as int);
        let ghost before = tokens@;
        assert(s.len() == len - pos);
        if number_first {
            let (end, value) = read_number(text, pos, len);
            proof {
                assert(s.take(end - pos) =~= text@.subrange(pos as int, end as int));
            }
            if end == pos || end >= len {
                return None;
            }
            match value {
                None => {
                    return None;
                },
                Some(v) => {
                    let letter = text.get_char(end);
                    proof {
                        assert(s[end - pos] == letter);
                        assert(s.skip(end - pos + 1) =~= text@.skip(end + 1));
                        let rest = scan(text@.skip(end + 1), number_first);
                        if rest.is_some() {
                            assert(before.push((letter, v)) + rest.unwrap() =~= before + (seq![(letter, v)]
                                + rest.unwrap()));
                        }
                    }
                    tokens.push((letter, v));
                    pos = end + 1;
                },
            }
        } else {
            let letter = text.get_char(pos);
            if char_is_digit(letter) {
                return None;
            }
            let (end, value) = read_number(text, pos + 1, len);
            proof {
                assert(s[0] == letter);
                assert(s.drop_first() =~= text@.skip(pos + 1));
                assert(s.subrange(1, 1 + (end - pos - 1)) =~= text@.subrange(pos + 1, end as int));
            }
            if end == pos + 1 {
                return None;
            }
            match value {
                None => {
                    return None;
                },
                Some(v) => {
                    proof {
                        assert(s.skip(1 + (end - pos - 1)) =~= text@.skip(end as int));
                        let rest = scan(text@.skip(end as int), number_first);
                        if rest.is_some() {
                            assert(before.push((letter, v)) + rest.unwrap() =~= before + (seq![(letter, v)]
                                + rest.unwrap()));
                        }
                    }
                    tokens.push((letter, v));
                    pos = end;
                },
            }
        }
    }
    proof {
        assert(text@.skip(pos as int) =~= Seq::<char>::empty());
        assert(tokens@ + Seq::<(char, usize)>::empty() =~= tokens@);
    }
    Some(tokens)
}

} // verus!
