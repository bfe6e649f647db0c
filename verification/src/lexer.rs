//! The token stream: tokens of a source text, one at a time, with one token
//! of lookahead.

use crate::error::{ParseError, ParseErrorView};
use crate::lexical::{
    body_end, byte_offset, digits_value, end_span, in_class, is_digit, lemma_byte_offset_monotone,
    lemma_byte_offset_step, lemma_byte_offset_zero, lemma_digits_value_monotone,
    lemma_digits_value_step, lemma_lexeme_bounds, lemma_run_end_bounds, lexeme_at, number_at,
    punctuation, run_end, tokens, CharClass, Lexeme,
};
use crate::span::{Span, SpanView};
use crate::text::{characters, substring};
use crate::token::{Token, TokenView};
use crate::views::{view_option, view_result};
use vstd::prelude::*;
use vstd::utf8::{char_is_scalar, encode_scalar};

verus! {

/// What a token stream is, to its user: the lexemes it has yet to hand out,
/// the byte range of the lexeme it read last, and the empty range at the
/// end of its source.
pub struct Cursor {
    pub pending: Seq<Lexeme>,
    pub span: SpanView,
    pub end: SpanView,
}

impl Cursor {
    /// The stream at the start of the source `s`.
    pub open spec fn start(s: Seq<char>) -> Cursor {
        Cursor {
            pending: tokens(s, 0),
            span: SpanView { offset: 0, length: 0 },
            end: end_span(s),
        }
    }

    /// The next token, if one is left.
    pub open spec fn first(self) -> Option<TokenView> {
        if self.pending.len() > 0 {
            Some(self.pending[0].token)
        } else {
            None
        }
    }

    /// Where the stream stands once it has read its next lexeme, or has
    /// found that none is left.
    pub open spec fn read_span(self) -> SpanView {
        if self.pending.len() > 0 {
            self.pending[0].span
        } else {
            self.end
        }
    }

    /// The stream after a look at the next token: nothing is taken.
    pub open spec fn peeked(self) -> Cursor {
        Cursor { span: self.read_span(), ..self }
    }

    /// The stream after the next token was taken, if one was left.
    pub open spec fn advanced(self) -> Cursor {
        if self.pending.len() > 0 {
            Cursor { pending: self.pending.drop_first(), span: self.read_span(), ..self }
        } else {
            Cursor { span: self.read_span(), ..self }
        }
    }

    /// What taking the next token gives: the token, or the end of input.
    pub open spec fn taken(self) -> Result<TokenView, ParseErrorView> {
        match self.first() {
            Some(t) => Ok(t),
            None => Err(ParseErrorView::EOF),
        }
    }

    /// What requiring `expected` as the next token gives.
    pub open spec fn expected(self, expected: TokenView) -> Result<(), ParseErrorView> {
        match self.first() {
            Some(t) => if t == expected {
                Ok(())
            } else {
                Err(ParseErrorView::UnexpectedSymbolFound { expected, found: t })
            },
            None => Err(ParseErrorView::EOF),
        }
    }
}

/// A look at the next token takes nothing from the stream. A second look
/// shows the same token; taking a token after a look gives the token that
/// the look showed and leaves the stream as if nothing had been looked at;
/// and taking a token shortens the stream by that one token.
pub proof fn lemma_peek_takes_nothing(c: Cursor)
    ensures
        c.peeked().pending == c.pending,
        c.peeked().first() == c.first(),
        c.peeked().peeked() == c.peeked(),
        c.peeked().taken() == c.taken(),
        c.peeked().advanced() == c.advanced(),
        c.pending.len() > 0 ==> c.advanced().pending == c.pending.skip(1),
        c.pending.len() == 0 ==> c.advanced().pending == c.pending,
{
    if c.pending.len() > 0 {
        assert(c.pending.drop_first() =~= c.pending.skip(1));
    }
}

/// A place in the source: the index of a character and the byte at which
/// that character starts.
#[derive(Clone, Copy)]
struct Position {
    index: usize,
    offset: usize,
}

/// Whether `c` belongs to the class `k`.
fn char_in_class(c: char, k: CharClass) -> (b: bool)
    ensures
        b == in_class(c, k),
{
    let v: u32 = c as u32;
    match k {
        CharClass::Whitespace => {
            (0x09 <= v && v <= 0x0D) || v == 0x20 || v == 0x85 || v == 0xA0 || v == 0x1680 || (
            0x2000 <= v && v <= 0x200A) || v == 0x2028 || v == 0x2029 || v == 0x202F || v
                == 0x205F || v == 0x3000
        },
        CharClass::Name => (0x41 <= v && v <= 0x5A) || (0x61 <= v && v <= 0x7A) || v == 0x5F,
        CharClass::Digit => 0x30 <= v && v <= 0x39,
    }
}

/// The number of bytes that `c` takes in UTF-8.
fn utf8_width(c: char) -> (w: usize)
    ensures
        w == encode_scalar(c as u32).len(),
        1 <= w <= 4,
{
    proof {
        char_is_scalar(c);
    }
    let v: u32 = c as u32;
    if v <= 0x7F {
        1
    } else if v <= 0x7FF {
        2
    } else if v <= 0xFFFF {
        3
    } else {
        4
    }
}

/// Where the run of characters of class `k` that starts at `i` ends.
fn scan_run(chars: &Vec<char>, i: usize, k: CharClass) -> (e: usize)
    requires
        i <= chars.len(),
    ensures
        e == run_end(chars@, i as int, k),
        i <= e <= chars.len(),
{
    let mut e: usize = i;
    while e < chars.len() && char_in_class(chars[e], k)
        invariant
            i <= e <= chars.len(),
            run_end(chars@, i as int, k) == run_end(chars@, e as int, k),
        decreases chars.len() - e,
    {
        e += 1;
    }
    e
}

/// Where the body of the string literal that starts at `j` stops.
fn scan_body(chars: &Vec<char>, j: usize) -> (e: usize)
    requires
        j <= chars.len(),
    ensures
        e == body_end(chars@, j as int),
        j <= e <= chars.len(),
{
    let mut e: usize = j;
    while e < chars.len()
        invariant
            j <= e <= chars.len(),
            body_end(chars@, j as int) == body_end(chars@, e as int),
        decreases chars.len() - e,
    {
        let c = chars[e];
        if c == '"' {
            return e;
        } else if c == '\\' {
            if e + 1 < chars.len() && chars[e + 1] != '\n' {
                e += 2;
            } else {
                return e;
            }
        } else {
            e += 1;
        }
    }
    e
}

/// The number that the digits from `i` up to `d` denote, if it fits in 64
/// bits.
fn digits_to_number(chars: &Vec<char>, i: usize, d: usize) -> (r: Option<u64>)
    requires
        i <= d <= chars.len(),
        forall|x: int| i <= x < d ==> is_digit(#[trigger] chars@[x]),
    ensures
        match r {
            Some(n) => digits_value(chars@.subrange(i as int, d as int)) == n,
            None => digits_value(chars@.subrange(i as int, d as int)) > u64::MAX,
        },
{
    let mut n: u64 = 0;
    let mut k: usize = i;
    assert(chars@.subrange(i as int, i as int) =~= Seq::<char>::empty());
    while k < d
        invariant
            i <= k <= d <= chars.len(),
            forall|x: int| i <= x < d ==> is_digit(#[trigger] chars@[x]),
            n == digits_value(chars@.subrange(i as int, k as int)),
        decreases d - k,
    {
        assert(is_digit(chars@[k as int]));
        let digit: u64 = (chars[k] as u32 - 0x30) as u64;
        proof {
            lemma_digits_value_step(chars@, i as int, k as int);
            lemma_digits_value_monotone(chars@, i as int, k + 1, d as int);
        }
        if n > 1844674407370955161 || (n == 1844674407370955161 && digit > 5) {
            return None;
        }
        n = n * 10 + digit;
        k += 1;
    }
    Some(n)
}

/// The token that the single character `c` is.
fn punctuation_token(c: char) -> (t: Token)
    ensures
        t@ == punctuation(c),
{
    if c == '=' {
        Token::Equal
    } else if c == '?' {
        Token::QuestionMark
    } else if c == ',' {
        Token::Comma
    } else if c == ';' {
        Token::Semicolon
    } else if c == '[' {
        Token::BracketLeft
    } else if c == ']' {
        Token::BracketRight
    } else if c == '(' {
        Token::ParensLeft
    } else if c == ')' {
        Token::ParensRight
    } else if c == '{' {
        Token::BraceLeft
    } else if c == '}' {
        Token::BraceRight
    } else {
        Token::Error
    }
}

/// The numeric lexeme that starts at `i`, and where it ends.
fn lex_number(chars: &Vec<char>, i: usize) -> (r: (Token, usize))
    requires
        i < chars.len(),
    ensures
        (r.0@, r.1 as int) == number_at(chars@, i as int),
{
    let d = scan_run(chars, i, CharClass::Digit);
    proof {
        lemma_run_end_bounds(chars@, i as int, CharClass::Digit);
    }
    if d < chars.len() && d + 1 < chars.len() && chars[d] == '.' && char_in_class(
        chars[d + 1],
        CharClass::Digit,
    ) {
        let e = scan_run(chars, d + 1, CharClass::Digit);
        (Token::Float(substring(chars, i, e)), e)
    } else if d > i {
        match digits_to_number(chars, i, d) {
            Some(n) => (Token::Number(n), d),
            None => (Token::Error, d),
        }
    } else {
        (Token::Error, i + 1)
    }
}

/// The lexeme that starts at `i`, and where it ends.
fn lex_at(chars: &Vec<char>, i: usize) -> (r: (Token, usize))
    requires
        i < chars.len(),
    ensures
        (r.0@, r.1 as int) == lexeme_at(chars@, i as int),
        i < r.1 <= chars.len(),
{
    proof {
        lemma_lexeme_bounds(chars@, i as int);
    }
    let c = chars[i];
    if char_in_class(c, CharClass::Name) {
        let e = scan_run(chars, i, CharClass::Name);
        (Token::Id(substring(chars, i, e)), e)
    } else if c == '"' {
        let e = scan_body(chars, i + 1);
        if e < chars.len() && chars[e] == '"' {
            (Token::LiteralString(substring(chars, i + 1, e)), e + 1)
        } else {
            (Token::Error, e)
        }
    } else if char_in_class(c, CharClass::Digit) || c == '.' {
        lex_number(chars, i)
    } else {
        (punctuation_token(c), i + 1)
    }
}

/// The place of the character `to`, found from a place at or before it.
fn locate(chars: &Vec<char>, from: Position, to: usize) -> (r: Position)
    requires
        from.index <= to <= chars.len(),
        from.offset == byte_offset(chars@, from.index as int),
        byte_offset(chars@, chars.len() as int) <= usize::MAX,
    ensures
        r.index == to,
        r.offset == byte_offset(chars@, to as int),
{
    let mut index: usize = from.index;
    let mut offset: usize = from.offset;
    while index < to
        invariant
            from.index <= index <= to <= chars.len(),
            offset == byte_offset(chars@, index as int),
            byte_offset(chars@, chars.len() as int) <= usize::MAX,
        decreases to - index,
    {
        proof {
            lemma_byte_offset_step(chars@, index as int);
            lemma_byte_offset_monotone(chars@, index + 1, chars.len() as int);
        }
        offset = offset + utf8_width(chars[index]);
        index += 1;
    }
    Position { index, offset }
}

/// A token stream over a source text.
pub struct Lexer {
    chars: Vec<char>,
    end: usize,
    at: Position,
    span: Span,
    peeked: Option<Token>,
}

impl View for Lexer {
    type V = Cursor;

    closed spec fn view(&self) -> Cursor {
        Cursor {
            pending: match self.peeked {
                Some(t) => seq![Lexeme { token: t@, span: self.span@ }] + tokens(
                    self.chars@,
                    self.at.index as int,
                ),
                None => tokens(self.chars@, self.at.index as int),
            },
            span: self.span@,
            end: end_span(self.chars@),
        }
    }
}

impl Lexer {
    #[verifier::type_invariant]
    spec fn well_formed(self) -> bool {
        &&& self.at.index <= self.chars.len()
        &&& self.at.offset == byte_offset(self.chars@, self.at.index as int)
        &&& self.end == byte_offset(self.chars@, self.chars.len() as int)
    }

    /// A token stream at the start of `source`.
    pub fn from_source(source: &str) -> (r: Lexer)
        ensures
            r@ == Cursor::start(source@),
    {
        let chars = characters(source);
        let end = source.as_bytes().len();
        proof {
            assert(chars@.take(chars.len() as int) =~= chars@);
            lemma_byte_offset_zero(chars@);
        }
        Lexer {
            chars,
            end,
            at: Position { index: 0, offset: 0 },
            span: Span { offset: 0, length: 0 },
            peeked: None,
        }
    }

    /// The byte range of the lexeme read last. At the end of the source it
    /// is the empty range there; before anything was read, the empty range
    /// at the start.
    pub fn span(&self) -> (r: Span)
        ensures
            r@ == self@.span,
    {
        self.span
    }

    /// Reads the next lexeme from the source. Nothing is held in lookahead.
    fn scan(&mut self) -> (r: Option<Token>)
        requires
            old(self).peeked is None,
        ensures
            final(self).peeked is None,
            final(self)@ == old(self)@.advanced(),
            view_option(r) == old(self)@.first(),
    {
        proof {
            use_type_invariant(&*self);
            lemma_run_end_bounds(self.chars@, self.at.index as int, CharClass::Whitespace);
        }
        let j = scan_run(&self.chars, self.at.index, CharClass::Whitespace);
        if j >= self.chars.len() {
            self.at = Position { index: j, offset: self.end };
            self.span = Span { offset: self.end, length: 0 };
            proof {
                lemma_run_end_bounds(self.chars@, j as int, CharClass::Whitespace);
            }
            None
        } else {
            let start = locate(&self.chars, self.at, j);
            let (token, e) = lex_at(&self.chars, j);
            let end = locate(&self.chars, start, e);
            proof {
                lemma_byte_offset_monotone(self.chars@, j as int, e as int);
            }
            self.at = end;
            self.span = Span { offset: start.offset, length: end.offset - start.offset };
            assert(old(self)@.pending.drop_first() =~= tokens(self.chars@, e as int));
            Some(token)
        }
    }

    /// Takes the next token. At the end of the source there is none, and
    /// this is an error.
    pub fn next(&mut self) -> (r: Result<Token, ParseError>)
        ensures
            final(self)@ == old(self)@.advanced(),
            view_result(r) == old(self)@.taken(),
    {
        let mut held: Option<Token> = None;
        proof {
            use_type_invariant(&*self);
        }
        std::mem::swap(&mut self.peeked, &mut held);
        match held {
            Some(token) => {
                assert(old(self)@.pending.drop_first() =~= tokens(
                    self.chars@,
                    self.at.index as int,
                ));
                Ok(token)
            },
            None => match self.scan() {
                Some(token) => Ok(token),
                None => Err(ParseError::EOF),
            },
        }
    }

    /// Shows the next token and leaves it in the stream. At the end of the
    /// source there is none.
    pub fn peek(&mut self) -> (r: Option<Token>)
        ensures
            final(self)@ == old(self)@.peeked(),
            view_option(r) == old(self)@.first(),
    {
        if self.peeked.is_none() {
            let scanned = self.scan();
            proof {
                use_type_invariant(&*self);
            }
            self.peeked = scanned;
            assert(self@.pending =~= old(self)@.pending);
        }
        match &self.peeked {
            Some(token) => Some(token.clone()),
            None => None,
        }
    }

    /// Takes the next token and requires it to be `expected`.
    pub fn expect(&mut self, expected: Token) -> (r: Result<(), ParseError>)
        ensures
            final(self)@ == old(self)@.advanced(),
            view_result(r) == old(self)@.expected(expected@),
    {
        match self.next() {
            Ok(found) => {
                if found == expected {
                    Ok(())
                } else {
                    Err(ParseError::UnexpectedSymbolFound { expected, found })
                }
            },
            Err(e) => Err(e),
        }
    }
}

} // verus!
