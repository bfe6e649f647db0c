//! The lexical rules, stated over sequences of characters.
//!
//! A source text is a sequence of characters. `tokens` says which lexemes it
//! holds, each with the byte range it covers in the UTF-8 encoding of the
//! text.

use crate::span::SpanView;
use crate::token::TokenView;
use vstd::prelude::*;
use vstd::utf8::{encode_scalar, encode_utf8};

verus! {

/// The classes of characters of which a lexeme can hold a run.
#[derive(Clone, Copy, Debug, PartialEq, Eq, Structural)]
pub enum CharClass {
    /// White space, which separates lexemes and is never part of one.
    Whitespace,
    /// An ASCII letter or an underscore.
    Name,
    /// An ASCII decimal digit.
    Digit,
}

/// Whether `c` is white space: a character with the Unicode property
/// `White_Space`.
pub open spec fn is_whitespace(c: char) -> bool {
    let v = c as u32;
    ||| 0x09 <= v <= 0x0D
    ||| v == 0x20
    ||| v == 0x85
    ||| v == 0xA0
    ||| v == 0x1680
    ||| 0x2000 <= v <= 0x200A
    ||| v == 0x2028
    ||| v == 0x2029
    ||| v == 0x202F
    ||| v == 0x205F
    ||| v == 0x3000
}

/// Whether `c` can stand in an identifier: an ASCII letter or an underscore.
pub open spec fn is_name_char(c: char) -> bool {
    let v = c as u32;
    ||| 0x41 <= v <= 0x5A
    ||| 0x61 <= v <= 0x7A
    ||| v == 0x5F
}

/// Whether `c` is an ASCII decimal digit.
pub open spec fn is_digit(c: char) -> bool {
    0x30 <= c as u32 <= 0x39
}

/// Whether `c` belongs to the class `k`.
pub open spec fn in_class(c: char, k: CharClass) -> bool {
    match k {
        CharClass::Whitespace => is_whitespace(c),
        CharClass::Name => is_name_char(c),
        CharClass::Digit => is_digit(c),
    }
}

/// Where the longest run of characters of class `k` that starts at `i`
/// ends: the first index from `i` on whose character is not of that class,
/// or the length of `s`.
pub open spec fn run_end(s: Seq<char>, i: int, k: CharClass) -> int
    decreases s.len() - i,
{
    if 0 <= i < s.len() && in_class(s[i], k) {
        run_end(s, i + 1, k)
    } else {
        i
    }
}

/// Where the body of a string literal that starts at `j` stops: at the
/// first quote, at a backslash that takes no character, or at the end of
/// the text. A backslash takes the character after it into the body,
/// whatever it is, but not a line feed.
pub open spec fn body_end(s: Seq<char>, j: int) -> int
    decreases s.len() - j,
{
    if j < 0 || j >= s.len() {
        j
    } else if s[j] == '"' {
        j
    } else if s[j] == '\\' {
        if j + 1 < s.len() && s[j + 1] != '\n' {
            body_end(s, j + 2)
        } else {
            j
        }
    } else {
        body_end(s, j + 1)
    }
}

/// The index of the quote that closes a string literal whose body starts
/// at `j`, if its body stops at a quote.
pub open spec fn string_close(s: Seq<char>, j: int) -> Option<int> {
    let e = body_end(s, j);
    if 0 <= e < s.len() && s[e] == '"' {
        Some(e)
    } else {
        None
    }
}

/// The number that a sequence of decimal digits denotes.
pub open spec fn digits_value(s: Seq<char>) -> nat
    decreases s.len(),
{
    if s.len() == 0 {
        0
    } else {
        digits_value(s.drop_last()) * 10 + (s.last() as u32 - 0x30) as nat
    }
}

/// The token that the single character `c` is, where it is none of a name,
/// a string, or a number.
pub open spec fn punctuation(c: char) -> TokenView {
    if c == '=' {
        TokenView::Equal
    } else if c == '?' {
        TokenView::QuestionMark
    } else if c == ',' {
        TokenView::Comma
    } else if c == ';' {
        TokenView::Semicolon
    } else if c == '[' {
        TokenView::BracketLeft
    } else if c == ']' {
        TokenView::BracketRight
    } else if c == '(' {
        TokenView::ParensLeft
    } else if c == ')' {
        TokenView::ParensRight
    } else if c == '{' {
        TokenView::BraceLeft
    } else if c == '}' {
        TokenView::BraceRight
    } else {
        TokenView::Error
    }
}

/// The numeric lexeme that starts at `i`, where `s[i]` is a digit or a
/// point, and where it ends.
///
/// Digits, a point and at least one digit are a decimal; the digits before
/// the point may be missing. Digits alone are an integer, or no token where
/// the number does not fit in 64 bits. A point that no digit follows is no
/// token.
pub open spec fn number_at(s: Seq<char>, i: int) -> (TokenView, int) {
    let d = run_end(s, i, CharClass::Digit);
    if d + 1 < s.len() && s[d] == '.' && is_digit(s[d + 1]) {
        let e = run_end(s, d + 1, CharClass::Digit);
        (TokenView::Float(s.subrange(i, e)), e)
    } else if d > i {
        let n = digits_value(s.subrange(i, d));
        if n <= u64::MAX {
            (TokenView::Number(n as u64), d)
        } else {
            (TokenView::Error, d)
        }
    } else {
        (TokenView::Error, i + 1)
    }
}

/// The lexeme that starts at `i`, where `s[i]` is not white space, and the
/// index at which it ends.
///
/// A stretch of source that is no token is one character long, but for an
/// integer that is too large, which is taken whole, and for a string
/// literal that is not closed, which is taken from its quote to where its
/// body stops.
pub open spec fn lexeme_at(s: Seq<char>, i: int) -> (TokenView, int) {
    let c = s[i];
    if is_name_char(c) {
        let e = run_end(s, i, CharClass::Name);
        (TokenView::Id(s.subrange(i, e)), e)
    } else if c == '"' {
        match string_close(s, i + 1) {
            Some(q) => (TokenView::LiteralString(s.subrange(i + 1, q)), q + 1),
            None => (TokenView::Error, body_end(s, i + 1)),
        }
    } else if is_digit(c) || c == '.' {
        number_at(s, i)
    } else {
        (punctuation(c), i + 1)
    }
}

/// The number of bytes that the first `i` characters of `s` take in UTF-8.
pub open spec fn byte_offset(s: Seq<char>, i: int) -> nat {
    encode_utf8(s.take(i)).len()
}

/// The byte range of the characters of `s` from `i` up to `j`.
pub open spec fn span_between(s: Seq<char>, i: int, j: int) -> SpanView {
    SpanView {
        offset: byte_offset(s, i),
        length: (byte_offset(s, j) - byte_offset(s, i)) as nat,
    }
}

/// The empty byte range at the end of `s`.
pub open spec fn end_span(s: Seq<char>) -> SpanView {
    span_between(s, s.len() as int, s.len() as int)
}

/// A token together with the byte range that it covers in the source.
pub struct Lexeme {
    pub token: TokenView,
    pub span: SpanView,
}

/// The lexemes of `s` from the index `i` on, in order.
pub open spec fn tokens(s: Seq<char>, i: int) -> Seq<Lexeme>
    decreases s.len() - i,
{
    let j = run_end(s, i, CharClass::Whitespace);
    if i < 0 || j >= s.len() {
        Seq::empty()
    } else {
        let (token, e) = lexeme_at(s, j);
        proof {
            lemma_run_end_bounds(s, i, CharClass::Whitespace);
            lemma_lexeme_bounds(s, j);
        }
        seq![Lexeme { token, span: span_between(s, j, e) }] + tokens(s, e)
    }
}

/// A run ends between where it starts and the end of the text, holds only
/// characters of its class, and stops at one that is not of it.
pub proof fn lemma_run_end_bounds(s: Seq<char>, i: int, k: CharClass)
    requires
        0 <= i <= s.len(),
    ensures
        i <= run_end(s, i, k) <= s.len(),
        forall|j: int| i <= j < run_end(s, i, k) ==> in_class(#[trigger] s[j], k),
        run_end(s, i, k) < s.len() ==> !in_class(s[run_end(s, i, k)], k),
    decreases s.len() - i,
{
    if i < s.len() && in_class(s[i], k) {
        lemma_run_end_bounds(s, i + 1, k);
    }
}

/// The body of a string literal stops between where it starts and the end
/// of the text.
pub proof fn lemma_body_end_bounds(s: Seq<char>, j: int)
    requires
        0 <= j <= s.len(),
    ensures
        j <= body_end(s, j) <= s.len(),
    decreases s.len() - j,
{
    if j < s.len() && s[j] != '"' {
        if s[j] == '\\' {
            if j + 1 < s.len() && s[j + 1] != '\n' {
                lemma_body_end_bounds(s, j + 2);
            }
        } else {
            lemma_body_end_bounds(s, j + 1);
        }
    }
}

/// A lexeme holds at least one character and ends within the text.
pub proof fn lemma_lexeme_bounds(s: Seq<char>, i: int)
    requires
        0 <= i < s.len(),
    ensures
        i < lexeme_at(s, i).1 <= s.len(),
{
    lemma_run_end_bounds(s, i, CharClass::Name);
    lemma_run_end_bounds(s, i, CharClass::Digit);
    lemma_body_end_bounds(s, i + 1);
    let d = run_end(s, i, CharClass::Digit);
    if d + 1 < s.len() {
        lemma_run_end_bounds(s, d + 1, CharClass::Digit);
    }
}

/// Whether every character of `s` is of the class `k`.
pub open spec fn all_in_class(s: Seq<char>, k: CharClass) -> bool {
    forall|i: int| 0 <= i < s.len() ==> in_class(#[trigger] s[i], k)
}

/// Whether `body` can stand between the quotes of a string literal: each
/// backslash in it takes the character after it, which is no line feed,
/// and no other quote stands in it.
pub open spec fn is_string_body(body: Seq<char>) -> bool {
    string_close(body.push('"'), 0) == Some(body.len() as int)
}

/// A run that starts at `i` ends at `m` where the characters from `i` up
/// to `m` are of the class and the one at `m`, if there is one, is not.
pub proof fn lemma_run_end_is(s: Seq<char>, i: int, m: int, k: CharClass)
    requires
        0 <= i <= m <= s.len(),
        forall|j: int| i <= j < m ==> in_class(#[trigger] s[j], k),
        m < s.len() ==> !in_class(s[m], k),
    ensures
        run_end(s, i, k) == m,
    decreases m - i,
{
    if i < m {
        assert(in_class(s[i], k));
        lemma_run_end_is(s, i + 1, m, k);
    }
}

/// Where a string literal closes depends only on the characters up to its
/// closing quote: if `s` holds from `shift` on what `t` holds, and a
/// literal body that starts at `j` in `t` closes at `q`, then the one
/// that starts at `shift + j` in `s` closes at `shift + q`.
pub proof fn lemma_string_close_shift(s: Seq<char>, t: Seq<char>, shift: int, j: int)
    requires
        0 <= shift,
        0 <= j,
        shift + t.len() <= s.len(),
        forall|x: int| 0 <= x < t.len() ==> s[shift + x] == #[trigger] t[x],
        string_close(t, j) is Some,
    ensures
        string_close(s, shift + j) == Some(shift + string_close(t, j)->0),
    decreases t.len() - j,
{
    if j < t.len() {
        assert(s[shift + j] == t[j]);
        if t[j] == '"' {
        } else if t[j] == '\\' {
            assert(j + 1 < t.len() && t[j + 1] != '\n');
            assert(s[shift + (j + 1)] == t[j + 1]);
            lemma_string_close_shift(s, t, shift, j + 2);
        } else {
            lemma_string_close_shift(s, t, shift, j + 1);
        }
    }
}

/// Encoding a text with one more character at its end appends the encoding
/// of that character.
pub proof fn lemma_encode_push(s: Seq<char>, c: char)
    ensures
        encode_utf8(s.push(c)) == encode_utf8(s) + encode_scalar(c as u32),
    decreases s.len(),
{
    let t = s.push(c);
    if s.len() == 0 {
        assert(t.drop_first() =~= Seq::<char>::empty());
        assert(encode_utf8(t.drop_first()) =~= Seq::<u8>::empty());
        assert(encode_utf8(s) =~= Seq::<u8>::empty());
    } else {
        assert(t.drop_first() =~= s.drop_first().push(c));
        lemma_encode_push(s.drop_first(), c);
    }
    assert(encode_utf8(t) =~= encode_utf8(s) + encode_scalar(c as u32));
}

/// No byte stands before the first character.
pub proof fn lemma_byte_offset_zero(s: Seq<char>)
    ensures
        byte_offset(s, 0) == 0,
{
    assert(s.take(0) =~= Seq::<char>::empty());
}

/// The byte offset grows with each character by the one to four bytes of
/// that character's encoding.
pub proof fn lemma_byte_offset_step(s: Seq<char>, i: int)
    requires
        0 <= i < s.len(),
    ensures
        byte_offset(s, i + 1) == byte_offset(s, i) + encode_scalar(s[i] as u32).len(),
        1 <= encode_scalar(s[i] as u32).len() <= 4,
{
    assert(s.take(i + 1) =~= s.take(i).push(s[i]));
    lemma_encode_push(s.take(i), s[i]);
}

/// A later character starts at a later byte.
pub proof fn lemma_byte_offset_monotone(s: Seq<char>, i: int, j: int)
    requires
        0 <= i <= j <= s.len(),
    ensures
        byte_offset(s, i) <= byte_offset(s, j),
    decreases j - i,
{
    if i < j {
        lemma_byte_offset_monotone(s, i, j - 1);
        lemma_byte_offset_step(s, j - 1);
    }
}

/// The number denoted by digits with one more digit at their end.
pub proof fn lemma_digits_value_step(s: Seq<char>, i: int, j: int)
    requires
        0 <= i <= j < s.len(),
    ensures
        digits_value(s.subrange(i, j + 1)) == digits_value(s.subrange(i, j)) * 10 + (s[j] as u32
            - 0x30) as nat,
{
    assert(s.subrange(i, j + 1).drop_last() =~= s.subrange(i, j));
}

/// Among digits, more of them denote no smaller a number.
pub proof fn lemma_digits_value_monotone(s: Seq<char>, i: int, j: int, k: int)
    requires
        0 <= i <= j <= k <= s.len(),
        forall|x: int| i <= x < k ==> is_digit(#[trigger] s[x]),
    ensures
        digits_value(s.subrange(i, j)) <= digits_value(s.subrange(i, k)),
    decreases k - j,
{
    if j < k {
        lemma_digits_value_monotone(s, i, j, k - 1);
        lemma_digits_value_step(s, i, k - 1);
        assert(is_digit(s[k - 1]));
    }
}

} // verus!
