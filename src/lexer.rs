use vstd::prelude::*;
use vstd::string::StringSliceAdditionalSpecFns;

use crate::error::{EndOfTokenStreamError, IndentationError, ParserError};
use crate::text::push_char;
use crate::token::{
    lemma_location_bounded, lemma_location_monotonic, lemma_span_of_within, loc_le, location,
    span_of, span_within, SourceLocation, Span, Token, TokenKind,
};

verus! {

pub open spec fn is_space(c: u8) -> bool {
    c == 32u8 || c == 9u8 || c == 13u8
}

pub open spec fn is_digit(c: u8) -> bool {
    48u8 <= c <= 57u8
}

pub open spec fn is_ident_start(c: u8) -> bool {
    (65u8 <= c <= 90u8) || (97u8 <= c <= 122u8) || c == 95u8
}

pub open spec fn is_ident_char(c: u8) -> bool {
    is_ident_start(c) || is_digit(c)
}

/// End of the run of digits that starts at `i`.
pub open spec fn digits_end(b: Seq<u8>, i: int) -> int
    decreases b.len() - i,
{
    if 0 <= i < b.len() && is_digit(b[i]) {
        digits_end(b, i + 1)
    } else {
        i
    }
}

/// End of the run of identifier bytes that starts at `i`.
pub open spec fn ident_end(b: Seq<u8>, i: int) -> int
    decreases b.len() - i,
{
    if 0 <= i < b.len() && is_ident_char(b[i]) {
        ident_end(b, i + 1)
    } else {
        i
    }
}

/// End of the run of newlines that starts at `i`.
pub open spec fn newlines_end(b: Seq<u8>, i: int) -> int
    decreases b.len() - i,
{
    if 0 <= i < b.len() && b[i] == 10u8 {
        newlines_end(b, i + 1)
    } else {
        i
    }
}

/// Index of the first newline at or after `i`, or the end of the input.
pub open spec fn line_end(b: Seq<u8>, i: int) -> int
    decreases b.len() - i,
{
    if 0 <= i < b.len() && b[i] != 10u8 {
        line_end(b, i + 1)
    } else {
        i
    }
}

/// The value of a sequence of decimal digits.
pub open spec fn decimal_value(d: Seq<u8>) -> int
    decreases d.len(),
{
    if d.len() == 0 {
        0
    } else {
        decimal_value(d.drop_last()) * 10 + (d.last() - 48)
    }
}

/// The text of ASCII bytes, as characters.
pub open spec fn ascii_text(t: Seq<u8>) -> Seq<char> {
    t.map_values(|c: u8| c as char)
}

/// The byte following `i` is `=`.
pub open spec fn equals_follows(b: Seq<u8>, i: int) -> bool {
    i + 1 < b.len() && b[i + 1] == 61u8
}

/// End of the longest lexeme that starts at `i`.
pub open spec fn lexeme_end(b: Seq<u8>, i: int) -> int {
    let c = b[i];
    if is_space(c) {
        i + 1
    } else if c == 10u8 {
        newlines_end(b, i)
    } else if c == 35u8 {
        line_end(b, i)
    } else if is_digit(c) {
        digits_end(b, i)
    } else if is_ident_start(c) {
        ident_end(b, i)
    } else if (c == 61u8 || c == 33u8 || c == 60u8 || c == 62u8) && equals_follows(b, i) {
        i + 2
    } else {
        i + 1
    }
}

/// A single byte that is a lexeme of its own.
pub open spec fn is_operator_byte(c: u8) -> bool {
    c == 61u8 || c == 60u8 || c == 62u8 || c == 43u8 || c == 45u8 || c == 42u8 || c == 47u8
        || c == 40u8 || c == 41u8 || c == 59u8
}

/// A lexeme starts at `i`: its first byte is in the alphabet and an
/// integer there fits in `i64`.
pub open spec fn recognized(b: Seq<u8>, i: int) -> bool {
    &&& 0 <= i < b.len()
    &&& {
        let c = b[i];
        ||| is_space(c)
        ||| c == 10u8
        ||| c == 35u8
        ||| is_ident_start(c)
        ||| is_operator_byte(c)
        ||| (c == 33u8 && equals_follows(b, i))
        ||| (is_digit(c) && decimal_value(b.subrange(i, digits_end(b, i))) <= i64::MAX)
    }
}

/// End of the run of horizontal whitespace that starts at `i`.
pub open spec fn spaces_end(b: Seq<u8>, i: int) -> int
    decreases b.len() - i,
{
    if 0 <= i < b.len() && is_space(b[i]) {
        spaces_end(b, i + 1)
    } else {
        i
    }
}

/// End of the token that the indent lexer reads at `i`: a whole run of
/// horizontal whitespace, or one lexeme.
pub open spec fn hand_end(b: Seq<u8>, i: int) -> int {
    if is_space(b[i]) {
        spaces_end(b, i)
    } else {
        lexeme_end(b, i)
    }
}

pub proof fn lemma_run_ends(b: Seq<u8>, i: int)
    requires
        0 <= i <= b.len(),
    ensures
        i <= spaces_end(b, i) <= b.len(),
        i <= digits_end(b, i) <= b.len(),
        i <= ident_end(b, i) <= b.len(),
        i <= newlines_end(b, i) <= b.len(),
        i <= line_end(b, i) <= b.len(),
    decreases b.len() - i,
{
    if i < b.len() {
        lemma_run_ends(b, i + 1);
    }
}

proof fn lemma_line_end_stops(b: Seq<u8>, i: int)
    requires
        0 <= i <= b.len(),
    ensures
        line_end(b, i) < b.len() ==> b[line_end(b, i)] == 10u8,
    decreases b.len() - i,
{
    if i < b.len() && b[i] != 10u8 {
        lemma_line_end_stops(b, i + 1);
    }
}

proof fn lemma_spaces_end_at(b: Seq<u8>, k: int, e: int)
    requires
        0 <= k <= e <= b.len(),
        forall|x: int| k <= x < e ==> is_space(#[trigger] b[x]),
        e == b.len() || !is_space(b[e]),
    ensures
        spaces_end(b, k) == e,
    decreases e - k,
{
    if k < e {
        lemma_spaces_end_at(b, k + 1, e);
    }
}

pub proof fn lemma_lexeme_end_advances(b: Seq<u8>, i: int)
    requires
        0 <= i < b.len(),
    ensures
        i < lexeme_end(b, i) <= b.len(),
{
    lemma_run_ends(b, i + 1);
}

/// Lexing from index `i` onwards meets only recognized lexemes.
pub open spec fn lexable_from(b: Seq<u8>, i: int) -> bool
    decreases b.len() - i,
{
    if i < 0 || i >= b.len() {
        true
    } else {
        proof {
            lemma_lexeme_end_advances(b, i);
        }
        recognized(b, i) && lexable_from(b, lexeme_end(b, i))
    }
}

/// The whole input is made of recognized lexemes.
pub open spec fn lexable(b: Seq<u8>) -> bool {
    lexable_from(b, 0) && b.len() <= i64::MAX
}

/// Where the next lexeme that is not a comment starts: a comment runs to
/// the end of its line, so what follows it is a newline or the end.
pub open spec fn visible_start(b: Seq<u8>, i: int) -> int {
    if 0 <= i < b.len() && b[i] == 35u8 {
        line_end(b, i)
    } else {
        i
    }
}

/// `k` is the token kind of the lexeme `b[i..j]`.
pub open spec fn kind_of(k: TokenKind, b: Seq<u8>, i: int, j: int) -> bool {
    let c = b[i];
    let text = b.subrange(i, j);
    if is_space(c) {
        k == TokenKind::Whitespace(1)
    } else if c == 10u8 {
        k == TokenKind::EndLine
    } else if c == 35u8 {
        k == TokenKind::Comment
    } else if is_digit(c) {
        k == TokenKind::Integer(decimal_value(text) as i64)
    } else if is_ident_start(c) {
        if text == seq![99u8, 111u8, 110u8, 115u8, 116u8] {
            k == TokenKind::Const
        } else if text == seq![111u8, 112u8, 116u8] {
            k == TokenKind::Opt
        } else if text == seq![97u8, 108u8, 116u8] {
            k == TokenKind::Alt
        } else if text == seq![111u8, 114u8] {
            k == TokenKind::Or
        } else if text == seq![97u8, 110u8, 100u8] {
            k == TokenKind::And
        } else {
            k is Ident && k->Ident_0@ == ascii_text(text)
        }
    } else if c == 61u8 {
        k == if j == i + 2 {
            TokenKind::Equals
        } else {
            TokenKind::Assign
        }
    } else if c == 33u8 {
        k == TokenKind::Different
    } else if c == 60u8 {
        k == if j == i + 2 {
            TokenKind::LessEqual
        } else {
            TokenKind::Less
        }
    } else if c == 62u8 {
        k == if j == i + 2 {
            TokenKind::GreaterEqual
        } else {
            TokenKind::Greater
        }
    } else if c == 43u8 {
        k == TokenKind::Plus
    } else if c == 45u8 {
        k == TokenKind::Minus
    } else if c == 42u8 {
        k == TokenKind::Star
    } else if c == 47u8 {
        k == TokenKind::Slash
    } else if c == 40u8 {
        k == TokenKind::LParen
    } else if c == 41u8 {
        k == TokenKind::RParen
    } else {
        k == TokenKind::Semi
    }
}

/// The token that the lexer yields for the lexeme starting at `i`.
pub open spec fn raw_token_at(t: Token, b: Seq<u8>, i: int) -> bool {
    &&& kind_of(t.kind, b, i, lexeme_end(b, i))
    &&& t.span == span_of(b, i, lexeme_end(b, i))
}


/// Bytes from `i` up to `digits_end(b, i)` are digits.
proof fn lemma_digits_run(b: Seq<u8>, i: int, k: int)
    requires
        0 <= i <= k < digits_end(b, i),
    ensures
        is_digit(b[k]),
    decreases k - i,
{
    if i < k {
        lemma_digits_run(b, i + 1, k);
    }
}

proof fn lemma_decimal_nonneg(d: Seq<u8>)
    requires
        forall|k: int| 0 <= k < d.len() ==> is_digit(#[trigger] d[k]),
    ensures
        decimal_value(d) >= 0,
    decreases d.len(),
{
    if d.len() > 0 {
        lemma_decimal_nonneg(d.drop_last());
    }
}

/// A prefix of a run of digits has no greater value than the run.
proof fn lemma_decimal_prefix(d: Seq<u8>, k: int)
    requires
        0 <= k <= d.len(),
        forall|x: int| 0 <= x < d.len() ==> is_digit(#[trigger] d[x]),
    ensures
        decimal_value(d.subrange(0, k)) <= decimal_value(d),
    decreases d.len() - k,
{
    if k == d.len() {
        assert(d.subrange(0, k) =~= d);
    } else {
        lemma_decimal_prefix(d, k + 1);
        let p = d.subrange(0, k + 1);
        assert(p.drop_last() =~= d.subrange(0, k));
        lemma_decimal_nonneg(d.subrange(0, k));
    }
}

/// The decimal digits of `n`, as bytes.
pub open spec fn decimal_bytes(n: nat) -> Seq<u8>
    decreases n,
{
    if n < 10 {
        seq![(48 + n) as u8]
    } else {
        decimal_bytes(n / 10).push((48 + n % 10) as u8)
    }
}

proof fn lemma_decimal_bytes(n: nat)
    ensures
        decimal_bytes(n).len() >= 1,
        forall|k: int| 0 <= k < decimal_bytes(n).len() ==> is_digit(#[trigger] decimal_bytes(n)[k]),
        decimal_value(decimal_bytes(n)) == n,
    decreases n,
{
    if n < 10 {
        assert(decimal_bytes(n).drop_last() =~= Seq::<u8>::empty());
        let d = decimal_bytes(n);
        assert(d.last() == (48 + n) as u8);
        assert(decimal_value(d) == decimal_value(d.drop_last()) * 10 + (d.last() - 48));
    } else {
        lemma_decimal_bytes(n / 10);
        assert(decimal_bytes(n).drop_last() =~= decimal_bytes(n / 10));
        let d = decimal_bytes(n);
        assert(d.last() == (48 + n % 10) as u8);
        assert(decimal_value(d) == decimal_value(d.drop_last()) * 10 + (d.last() - 48));
        assert(decimal_value(d.drop_last()) == n / 10);
        assert(d.last() - 48 == n % 10);
        assert((n / 10) * 10 + n % 10 == n) by (nonlinear_arith);
    }
}

proof fn lemma_digits_end_at(b: Seq<u8>, k: int, e: int)
    requires
        0 <= k <= e <= b.len(),
        forall|x: int| k <= x < e ==> is_digit(#[trigger] b[x]),
        e == b.len() || !is_digit(b[e]),
    ensures
        digits_end(b, k) == e,
    decreases e - k,
{
    if k < e {
        lemma_digits_end_at(b, k + 1, e);
    }
}

/// The lexer reads the decimal form of an integer that fits in `i64` as
/// that integer, when no digit follows it.
pub proof fn lemma_integer_round_trip(b: Seq<u8>, i: int, n: nat)
    requires
        n <= i64::MAX,
        0 <= i,
        i + decimal_bytes(n).len() <= b.len(),
        b.subrange(i, i + decimal_bytes(n).len()) == decimal_bytes(n),
        i + decimal_bytes(n).len() == b.len() || !is_digit(b[i + decimal_bytes(n).len()]),
    ensures
        recognized(b, i),
        lexeme_end(b, i) == i + decimal_bytes(n).len(),
        kind_of(TokenKind::Integer(n as i64), b, i, lexeme_end(b, i)),
{
    let d = decimal_bytes(n);
    let e = i + d.len();
    lemma_decimal_bytes(n);
    assert forall|x: int| i <= x < e implies is_digit(#[trigger] b[x]) by {
        assert(b[x] == b.subrange(i, e)[x - i]);
    }
    assert(b[i] == d[0]);
    lemma_digits_end_at(b, i, e);
}

/// Reads the lexemes of a source text one at a time, dropping comments and
/// tracking the location of each.
pub struct Lexer<'a> {
    text: &'a [u8],
    position: usize,
    location: SourceLocation,
}

impl<'a> Lexer<'a> {
    /// The source, as bytes.
    pub closed spec fn source(&self) -> Seq<u8> {
        self.text@
    }

    /// Index of the next byte to read.
    pub closed spec fn pos(&self) -> int {
        self.position as int
    }

    pub closed spec fn wf(&self) -> bool {
        &&& self.position <= self.text@.len()
        &&& self.text@.len() <= usize::MAX
        &&& self.location == location(self.text@, self.position as int)
        &&& lexable(self.text@)
        &&& lexable_from(self.text@, self.position as int)
    }

    pub fn new(s: &'a str) -> (r: Lexer<'a>)
        requires
            lexable(s.spec_bytes()),
        ensures
            r.wf(),
            r.source() == s.spec_bytes(),
            r.pos() == 0,
    {
        let text = s.as_bytes();
        // Reading the length tells the verifier that it fits in a `usize`.
        let _length = text.len();
        Lexer { text, position: 0, location: SourceLocation { row: 0, column: 0 } }
    }

    /// The next byte is horizontal whitespace.
    pub fn at_whitespace(&self) -> (r: bool)
        requires
            self.wf(),
        ensures
            r == (self.pos() < self.source().len() && is_space(self.source()[self.pos()])),
    {
        self.position < self.text.len() && is_space_byte(self.text[self.position])
    }

    /// The location after everything read so far.
    pub fn location(&self) -> (r: SourceLocation)
        requires
            self.wf(),
        ensures
            r == location(self.source(), self.pos()),
    {
        self.location
    }

    /// The next token that is not a comment, or `None` at the end of the input.
    pub fn next(&mut self) -> (r: Option<Token>)
        requires
            old(self).wf(),
        ensures
            final(self).wf(),
            final(self).source() == old(self).source(),
            ({
                let b = old(self).source();
                let p = visible_start(b, old(self).pos());
                &&& p >= b.len() ==> r is None && final(self).pos() == b.len()
                &&& p < b.len() ==> r is Some && raw_token_at(r->Some_0, b, p)
                    && final(self).pos() == lexeme_end(b, p)
            }),
            r is Some ==> !(r->Some_0.kind is Comment || r->Some_0.kind is Indent
                || r->Some_0.kind is Deindent),
            r is Some ==> span_within(r->Some_0.span, old(self).source()),
    {
        let b = self.text;
        let len = b.len();
        if self.position < len && b[self.position] == 35u8 {
            let e = line_end_exec(b, self.position);
            proof {
                lemma_run_ends(b@, self.position as int);
            }
            proof {
                lemma_lexeme_end_advances(b@, self.position as int);
                assert(lexeme_end(b@, self.position as int) == e);
            }
            self.location = advance_location(b, self.position, e, self.location);
            self.position = e;
        }
        let start = self.position;
        if start >= len {
            return None;
        }
        assert(lexable_from(b@, start as int));
        assert(recognized(b@, start as int));
        proof {
            lemma_run_ends(b@, start as int);
            lemma_run_ends(b@, start as int + 1);
        }
        let c = b[start];
        let mut end: usize = start + 1;
        let kind = if is_space_byte(c) {
            TokenKind::Whitespace(1)
        } else if c == 10u8 {
            end = newlines_end_exec(b, start);
            TokenKind::EndLine
        } else if is_digit_byte(c) {
            end = digits_end_exec(b, start);
            TokenKind::Integer(decimal_exec(b, start, end))
        } else if is_ident_start_byte(c) {
            end = ident_end_exec(b, start);
            word_kind(b, start, end)
        } else if c == 61u8 || c == 33u8 || c == 60u8 || c == 62u8 {
            let eq = start + 1 < len && b[start + 1] == 61u8;
            if eq {
                end = start + 2;
            }
            if c == 61u8 {
                if eq {
                    TokenKind::Equals
                } else {
                    TokenKind::Assign
                }
            } else if c == 33u8 {
                TokenKind::Different
            } else if c == 60u8 {
                if eq {
                    TokenKind::LessEqual
                } else {
                    TokenKind::Less
                }
            } else if eq {
                TokenKind::GreaterEqual
            } else {
                TokenKind::Greater
            }
        } else if c == 43u8 {
            TokenKind::Plus
        } else if c == 45u8 {
            TokenKind::Minus
        } else if c == 42u8 {
            TokenKind::Star
        } else if c == 47u8 {
            TokenKind::Slash
        } else if c == 40u8 {
            TokenKind::LParen
        } else if c == 41u8 {
            TokenKind::RParen
        } else {
            TokenKind::Semi
        };
        assert(end == lexeme_end(b@, start as int));
        proof {
            lemma_span_of_within(b@, start as int, end as int);
        }
        let lo = self.location;
        let hi = advance_location(b, start, end, lo);
        self.position = end;
        self.location = hi;
        Some(Token { kind, span: Span { lo, hi } })
    }
}

/// From index `i` to index `j` the source holds only lexemes that the
/// layout-aware stream drops: whitespace, newlines and comments.
pub open spec fn skippable(b: Seq<u8>, i: int, j: int) -> bool
    decreases j - i,
{
    if i >= j {
        i == j
    } else if 0 <= i < b.len() && (is_space(b[i]) || b[i] == 10u8 || b[i] == 35u8) {
        proof {
            lemma_lexeme_end_advances(b, i);
        }
        lexeme_end(b, i) <= j && skippable(b, lexeme_end(b, i), j)
    } else {
        false
    }
}

/// Start indices of the lexemes from index `i` on that the layout-aware
/// stream keeps: all but whitespace, newlines and comments.
pub open spec fn kept_lexemes(b: Seq<u8>, i: int) -> Seq<int>
    decreases b.len() - i,
{
    if i < 0 || i >= b.len() {
        Seq::empty()
    } else {
        proof {
            lemma_lexeme_end_advances(b, i);
        }
        if is_space(b[i]) || b[i] == 10u8 || b[i] == 35u8 {
            kept_lexemes(b, lexeme_end(b, i))
        } else {
            seq![i] + kept_lexemes(b, lexeme_end(b, i))
        }
    }
}

/// Skipped bytes hold no kept lexeme.
pub proof fn lemma_skippable_keeps_nothing(b: Seq<u8>, i: int, j: int)
    requires
        0 <= i,
        skippable(b, i, j),
    ensures
        kept_lexemes(b, i) == kept_lexemes(b, j),
    decreases j - i,
{
    if i < j {
        lemma_lexeme_end_advances(b, i);
        lemma_skippable_keeps_nothing(b, lexeme_end(b, i), j);
    }
}

proof fn lemma_skippable_join(b: Seq<u8>, i: int, j: int, k: int)
    requires
        skippable(b, i, j),
        skippable(b, j, k),
    ensures
        skippable(b, i, k),
    decreases j - i,
{
    if i < j {
        assert(0 <= i < b.len());
        lemma_lexeme_end_advances(b, i);
        lemma_skippable_join(b, lexeme_end(b, i), j, k);
    }
}

proof fn lemma_spaces_skippable(b: Seq<u8>, i: int, j: int)
    requires
        0 <= i <= j <= b.len(),
        forall|x: int| i <= x < j ==> is_space(#[trigger] b[x]),
    ensures
        skippable(b, i, j),
    decreases j - i,
{
    if i < j {
        lemma_spaces_skippable(b, i + 1, j);
        assert(lexeme_end(b, i) == i + 1);
    }
}

/// `t` is an `Indent` or a `Deindent`, or the token of a lexeme of `b`.
pub open spec fn layout_token(t: Token, b: Seq<u8>) -> bool {
    t.kind is Indent || t.kind is Deindent || exists|i: int| 0 <= i < b.len() && raw_token_at(t, b, i)
}

/// A token of the layout-aware stream: never whitespace, a newline or a comment.
pub open spec fn visible_kind(k: TokenKind) -> bool {
    !(k is Whitespace || k is EndLine || k is Comment)
}

/// The innermost open indentation width, or zero when none is open.
pub open spec fn top_level(levels: Seq<i64>) -> i64 {
    if levels.len() == 0 {
        0
    } else {
        levels.last()
    }
}

/// The open levels once every level wider than `w` at the top is closed.
pub open spec fn levels_within(levels: Seq<i64>, w: i64) -> Seq<i64>
    decreases levels.len(),
{
    if levels.len() > 0 && levels.last() > w {
        levels_within(levels.drop_last(), w)
    } else {
        levels
    }
}

proof fn lemma_levels_within_shorter(levels: Seq<i64>, w: i64)
    ensures
        levels_within(levels, w).len() <= levels.len(),
        levels.len() > 0 && levels.last() > w ==> levels_within(levels, w).len() < levels.len(),
    decreases levels.len(),
{
    if levels.len() > 0 && levels.last() > w {
        lemma_levels_within_shorter(levels.drop_last(), w);
    }
}

/// An element of the layout-aware token stream: an `Indent` or a `Deindent`
/// with its span, or the token of the lexeme that starts at an index.
pub enum Layout {
    Indent(Span),
    Deindent(Span),
    Lexeme(int),
}

/// The token `t` is the element `it` of the stream of the source `b`.
pub open spec fn item_matches(t: Token, it: Layout, b: Seq<u8>) -> bool {
    match it {
        Layout::Indent(sp) => t == Token { kind: TokenKind::Indent, span: sp },
        Layout::Deindent(sp) => t == Token { kind: TokenKind::Deindent, span: sp },
        Layout::Lexeme(i) => raw_token_at(t, b, i) && visible_kind(t.kind) && !(t.kind is Indent
            || t.kind is Deindent),
    }
}

/// The end of the input, as an error of the stream.
pub open spec fn end_of_input(b: Seq<u8>) -> ParserError {
    ParserError::EndOfTokenStream(EndOfTokenStreamError { at: location(b, b.len() as int) })
}

/// The off-side rule, from the token that starts at `cs` on, with the open
/// indentation widths `levels`; `line_start` says whether that token starts
/// a line. A run of horizontal whitespace is one token. At the start of a
/// line, leading whitespace (width zero if there is none) wider than the
/// innermost level opens a level with an `Indent`; narrower, it closes every
/// wider level with one `Deindent` each, and is an indentation error unless
/// it then matches the innermost level left. Whitespace and newlines are
/// then dropped, other lexemes kept. At the end of the input one `Deindent`
/// closes each open level. Gives the stream and what ends it.
pub open spec fn layout_from(b: Seq<u8>, cs: int, line_start: bool, levels: Seq<i64>) -> (
    Seq<Layout>,
    ParserError,
)
    decreases b.len() - cs, if line_start {
        2int
    } else {
        0int
    }, 0int,
{
    if cs < 0 || cs >= b.len() {
        (
            Seq::new(
                levels.len(),
                |k: int| Layout::Deindent(span_of(b, b.len() as int, b.len() as int)),
            ),
            end_of_input(b),
        )
    } else {
        let e = hand_end(b, cs);
        let sp = span_of(b, cs, e);
        let w: i64 = if is_space(b[cs]) {
            (e - cs) as i64
        } else {
            0
        };
        let top = top_level(levels);
        if line_start && w > top {
            let (r, end) = layout_from(b, cs, false, levels.push(w));
            (seq![Layout::Indent(sp)] + r, end)
        } else if line_start && w < top {
            let kept = levels_within(levels, w);
            if top_level(kept) == w {
                rest_from(b, cs, false, kept, (levels.len() - kept.len()) as nat, sp)
            } else {
                (
                    Seq::empty(),
                    ParserError::Indentation(
                        IndentationError { span: sp, expected: levels[kept.len() as int], actual: w },
                    ),
                )
            }
        } else {
            proof {
                lemma_run_ends(b, cs + 1);
                lemma_lexeme_end_advances(b, cs);
                lemma_run_ends(b, hand_end(b, cs));
            }
            let (r, end) = layout_from(b, visible_start(b, e), b[cs] == 10u8, levels);
            (
                if is_space(b[cs]) || b[cs] == 10u8 {
                    r
                } else {
                    seq![Layout::Lexeme(cs)] + r
                },
                end,
            )
        }
    }
}

/// `queued` `Deindent` tokens with span `sp`, then the stream from `cs` on.
pub open spec fn rest_from(
    b: Seq<u8>,
    cs: int,
    line_start: bool,
    levels: Seq<i64>,
    queued: nat,
    sp: Span,
) -> (Seq<Layout>, ParserError)
    decreases b.len() - cs, if line_start {
        2int
    } else {
        0int
    }, queued + 1,
{
    if queued > 0 {
        let (r, end) = rest_from(b, cs, line_start, levels, (queued - 1) as nat, sp);
        (seq![Layout::Deindent(sp)] + r, end)
    } else {
        layout_from(b, cs, line_start, levels)
    }
}

/// The layout-aware token stream of the source `b`, and what ends it: the
/// end of the input, or the first indentation error.
pub open spec fn layout(b: Seq<u8>) -> (Seq<Layout>, ParserError) {
    layout_from(b, visible_start(b, 0), true, Seq::empty())
}

/// Closing the levels wider than `w` leaves `w` innermost exactly when `w`
/// is zero or one of the levels, when they rise and are positive.
proof fn lemma_levels_within_matches(levels: Seq<i64>, w: i64)
    requires
        w >= 0,
        forall|k: int| 0 <= k < levels.len() ==> #[trigger] levels[k] > 0,
        forall|i: int, j: int| 0 <= i < j < levels.len() ==> #[trigger] levels[i] < #[trigger] levels[j],
    ensures
        (top_level(levels_within(levels, w)) == w) <==> (w == 0 || levels.contains(w)),
    decreases levels.len(),
{
    if levels.len() > 0 {
        let last = levels.last();
        if last > w {
            let rest = levels.drop_last();
            lemma_levels_within_matches(rest, w);
            if levels.contains(w) {
                let k = choose|k: int| 0 <= k < levels.len() && levels[k] == w;
                assert(k != levels.len() - 1);
                assert(rest[k] == w);
            }
            if rest.contains(w) {
                let k = choose|k: int| 0 <= k < rest.len() && rest[k] == w;
                assert(levels[k] == w);
            }
        } else if last < w {
            assert forall|k: int| 0 <= k < levels.len() implies levels[k] != w by {
                if k < levels.len() - 1 {
                    assert(levels[k] < levels[levels.len() - 1]);
                }
            }
        } else {
            assert(levels[levels.len() - 1] == w);
        }
    }
}

/// Where a token handed out by one step of the indent lexer comes from, and
/// what it does to the open levels. An `Indent` comes from leading whitespace
/// wider than the innermost level, which it opens. A `Deindent` comes from a
/// line narrower than the innermost level, which closes every wider level and
/// queues one `Deindent` for each; from that queue; or from the end of the
/// input, which closes the innermost level. Any other token leaves the levels
/// as they are.
pub open spec fn layout_step(before: IndentLexer, after: IndentLexer, t: Token) -> bool {
    let w = before.leading_width();
    let top = top_level(before.levels());
    let at_line = before.at_line_start() && before.at_hand() is Some;
    if t.kind is Indent {
        &&& at_line && before.at_hand()->Some_0.kind is Whitespace && w > top
        &&& t.span == before.at_hand()->Some_0.span
        &&& after.levels() == before.levels().push(w)
    } else if t.kind is Deindent {
        ||| (before.queued_deindents() > 0 && after.queued_deindents() == before.queued_deindents()
            - 1 && after.levels() == before.levels())
        ||| (before.queued_deindents() == 0 && at_line && w < top && after.levels()
            == levels_within(before.levels(), w) && top_level(after.levels()) == w
            && after.queued_deindents() + 1 == before.levels().len() - after.levels().len()
            && t.span == before.at_hand()->Some_0.span)
        ||| (before.queued_deindents() == 0 && before.at_hand() is None && before.levels().len() > 0
            && after.levels() == before.levels().drop_last())
    } else {
        &&& after.levels() == before.levels()
        &&& after.queued_deindents() == before.queued_deindents()
        &&& before.queued_deindents() == 0
    }
}

/// Wraps the lexer and turns leading whitespace into `Indent` and `Deindent`
/// tokens by the off-side rule.
pub struct IndentLexer<'a> {
    lexer: Lexer<'a>,
    current_token: Option<Token>,
    indentation_stack: Vec<i64>,
    start_of_line: bool,
    pending_indent: bool,
    pending_deindents: usize,
    pending_span: Span,
    /// Start index of the span of the queued tokens.
    pending_start: Ghost<int>,
    /// Start index of the token at hand, or the input length when there is none.
    current_start: Ghost<int>,
    /// Start index of the last token handed out.
    emitted_start: Ghost<int>,
    /// `Indent` tokens handed out minus `Deindent` tokens handed out.
    depth: Ghost<int>,
}

impl<'a> IndentLexer<'a> {
    /// The source, as bytes.
    pub closed spec fn source(&self) -> Seq<u8> {
        self.lexer.source()
    }

    /// `Indent` tokens handed out so far minus `Deindent` tokens handed out.
    pub closed spec fn depth(&self) -> int {
        self.depth@
    }

    /// Where the last token handed out starts.
    pub closed spec fn last_location(&self) -> SourceLocation {
        location(self.source(), self.emitted_start@)
    }

    pub closed spec fn wf(&self) -> bool {
        let b = self.source();
        &&& self.lexer.wf()
        &&& 0 <= self.emitted_start@ <= self.current_start@ <= self.lexer.pos() <= b.len()
        &&& match self.current_token {
            None => self.lexer.pos() == b.len() && self.current_start@ == b.len(),
            Some(t) => {
                &&& self.current_start@ < self.lexer.pos()
                &&& t.span == span_of(b, self.current_start@, self.lexer.pos())
                &&& !(t.kind is Comment || t.kind is Indent || t.kind is Deindent)
                &&& (t.kind is Whitespace ==> t.kind->Whitespace_0 == self.lexer.pos()
                    - self.current_start@)
                &&& (!(t.kind is Whitespace) ==> raw_token_at(t, b, self.current_start@)
                    && self.lexer.pos() == lexeme_end(b, self.current_start@))
                &&& (t.kind is Whitespace || t.kind is EndLine) ==> skippable(
                    b,
                    self.current_start@,
                    self.lexer.pos(),
                )
                &&& self.current_start@ < b.len() && b[self.current_start@] != 35u8
                &&& self.lexer.pos() == hand_end(b, self.current_start@)
                &&& (t.kind is Whitespace <==> is_space(b[self.current_start@]))
                &&& (t.kind is EndLine <==> b[self.current_start@] == 10u8)
            },
        }
        &&& forall|i: int, j: int|
            0 <= i < j < self.indentation_stack@.len() ==> #[trigger] self.indentation_stack@[i]
                < #[trigger] self.indentation_stack@[j]
        &&& (self.pending_indent || self.pending_deindents > 0) ==> {
            &&& self.emitted_start@ <= self.pending_start@ <= self.current_start@
            &&& exists|e: int|
                self.pending_start@ <= e <= b.len() && self.pending_span == span_of(
                    b,
                    self.pending_start@,
                    e,
                )
        }
        &&& (self.pending_indent || self.pending_deindents > 0) ==> !self.start_of_line
        &&& self.pending_indent ==> self.indentation_stack@.len() >= 1 && self.pending_deindents
            == 0
        &&& forall|k: int|
            0 <= k < self.indentation_stack@.len() ==> #[trigger] self.indentation_stack@[k] > 0
        &&& self.depth@ == self.indentation_stack@.len() - (if self.pending_indent {
            1int
        } else {
            0int
        }) + self.pending_deindents
    }

    /// The tokens the lexer has yet to hand out, and what will end them.
    pub closed spec fn stream(&self) -> (Seq<Layout>, ParserError) {
        rest_from(
            self.source(),
            self.current_start@,
            self.start_of_line,
            self.indentation_stack@,
            self.pending_deindents as nat,
            self.pending_span,
        )
    }

    /// Start index of the last token handed out.
    pub closed spec fn emitted_index(&self) -> int {
        self.emitted_start@
    }

    /// Start index of the raw token at hand, or the input length.
    pub closed spec fn start_index(&self) -> int {
        self.current_start@
    }

    /// The raw token at hand, whitespace runs merged.
    pub closed spec fn at_hand(&self) -> Option<Token> {
        self.current_token
    }

    /// Index of the next byte the raw lexer will read.
    pub closed spec fn raw_pos(&self) -> int {
        self.lexer.pos()
    }

    /// A bound on the work left: it falls with every token handed out.
    pub closed spec fn work(&self) -> nat {
        (3 * (self.source().len() - self.current_start@) + (if self.start_of_line
            && self.current_token is Some {
            2int
        } else {
            0int
        }) + self.indentation_stack@.len() + self.pending_deindents + (if self.pending_indent {
            1int
        } else {
            0int
        })) as nat
    }

    /// The token at hand starts a line.
    pub closed spec fn at_line_start(&self) -> bool {
        self.start_of_line
    }

    /// An `Indent` waits to be handed out.
    pub closed spec fn queued_indent(&self) -> bool {
        self.pending_indent
    }

    /// The span that the queued tokens will carry.
    pub closed spec fn queued_span(&self) -> Span {
        self.pending_span
    }

    /// How many `Deindent` tokens wait to be handed out.
    pub closed spec fn queued_deindents(&self) -> nat {
        self.pending_deindents as nat
    }

    /// The width of the whitespace that leads the token at hand: that of the
    /// token itself when it is whitespace, else zero.
    pub closed spec fn leading_width(&self) -> i64 {
        match self.current_token {
            Some(t) => match t.kind {
                TokenKind::Whitespace(a) => a,
                _ => 0,
            },
            None => 0,
        }
    }

    /// The open indentation widths, outermost first.
    pub closed spec fn levels(&self) -> Seq<i64> {
        self.indentation_stack@
    }

    pub fn new(s: &'a str) -> (r: IndentLexer<'a>)
        requires
            lexable(s.spec_bytes()),
        ensures
            r.wf(),
            r.source() == s.spec_bytes(),
            r.depth() == 0,
            r.levels().len() == 0,
            !r.queued_indent(),
            r.at_line_start(),
            r.queued_deindents() == 0,
            r.stream() == layout(s.spec_bytes()),
            r.last_location() == location(s.spec_bytes(), 0),
            skippable(s.spec_bytes(), 0, r.start_index()),
    {
        let mut lexer = Lexer::new(s);
        let (first, start) = read_merged(&mut lexer);
        IndentLexer {
            lexer,
            current_token: first,
            indentation_stack: Vec::new(),
            start_of_line: true,
            pending_indent: false,
            pending_deindents: 0,
            pending_span: Span::new(),
            pending_start: Ghost(0),
            current_start: start,
            emitted_start: Ghost(0),
            depth: Ghost(0),
        }
    }

    /// At the start of a line, compares its leading whitespace with the open
    /// indentation levels: a wider line opens a level and queues an `Indent`;
    /// a narrower one closes each wider level, queueing a `Deindent` for each,
    /// and fails when no open level is as wide as the line.
    pub fn handle_indent(&mut self) -> (r: Result<(), ParserError>)
        requires
            old(self).wf(),
        ensures
            final(self).wf(),
            final(self).source() == old(self).source(),
            final(self).depth() == old(self).depth(),
            final(self).last_location() == old(self).last_location(),
            final(self).emitted_index() == old(self).emitted_index(),
            final(self).start_index() == old(self).start_index(),
            final(self).at_hand() == old(self).at_hand(),
            final(self).raw_pos() == old(self).raw_pos(),
            final(self).work() <= old(self).work(),
            !old(self).at_line_start() || old(self).at_hand() is None ==> {
                &&& r is Ok
                &&& final(self).at_line_start() == old(self).at_line_start()
                &&& final(self).queued_span() == old(self).queued_span()
                &&& final(self).levels() == old(self).levels()
                &&& final(self).queued_indent() == old(self).queued_indent()
                &&& final(self).queued_deindents() == old(self).queued_deindents()
            },
            old(self).at_line_start() && old(self).at_hand() is Some ==> {
                let w = old(self).leading_width();
                let top = top_level(old(self).levels());
                let kept = final(self).levels();
                &&& old(self).queued_deindents() == 0 && !old(self).queued_indent()
                &&& !final(self).at_line_start() || w == top
                &&& w == top ==> r is Ok && kept == old(self).levels() && !final(self).queued_indent()
                    && final(self).queued_deindents() == 0
                &&& w > top ==> r is Ok && kept == old(self).levels().push(w) && final(self).queued_indent() && final(self).queued_deindents() == 0
                    && final(self).queued_span() == old(self).at_hand()->Some_0.span
                &&& w < top ==> {
                    &&& kept == levels_within(old(self).levels(), w)
                    &&& !final(self).queued_indent()
                    &&& final(self).queued_deindents() == old(self).levels().len() - kept.len()
                    &&& final(self).queued_span() == old(self).at_hand()->Some_0.span
                    &&& r is Ok <==> top_level(kept) == w
                    &&& r is Ok <==> (w == 0 || old(self).levels().contains(w))
                    &&& r is Err ==> r->Err_0 == ParserError::Indentation(
                        IndentationError {
                            span: old(self).at_hand()->Some_0.span,
                            expected: old(self).levels()[kept.len() as int],
                            actual: w,
                        },
                    )
                }
            },
            r is Err ==> {
                &&& r->Err_0 is Indentation
                &&& old(self).at_hand() is Some
                &&& old(self).at_hand()->Some_0.kind is Whitespace
                &&& r->Err_0->Indentation_0.span == old(self).at_hand()->Some_0.span
                &&& r->Err_0->Indentation_0.actual < r->Err_0->Indentation_0.expected
            },
    {
        if !self.start_of_line {
            return Ok(());
        }
        let (w, span) = match &self.current_token {
            None => {
                return Ok(());
            },
            Some(t) => (
                match t.kind {
                    TokenKind::Whitespace(a) => a,
                    _ => 0,
                },
                t.span,
            ),
        };
        let len = self.indentation_stack.len();
        let top = if len == 0 {
            0
        } else {
            self.indentation_stack[len - 1]
        };
        if top == w {
            return Ok(());
        }
        if top < w {
            self.indentation_stack.push(w);
            self.pending_indent = true;
            self.pending_span = span;
            self.pending_start = self.current_start;
            self.start_of_line = false;
            assert(self.pending_start@ <= self.lexer.pos() <= self.source().len()
                && self.pending_span == span_of(self.source(), self.pending_start@, self.lexer.pos()));
            assert forall|k: int|
                0 <= k < self.indentation_stack@.len() implies #[trigger] self.indentation_stack@[k]
                > 0 by {
                if k < old(self).indentation_stack@.len() {
                    assert(self.indentation_stack@[k] == old(self).indentation_stack@[k]);
                }
            }
            assert forall|i: int, j: int|
                0 <= i < j < self.indentation_stack@.len() implies #[trigger] self.indentation_stack@[i]
                < #[trigger] self.indentation_stack@[j] by {
                assert(self.indentation_stack@[i] == old(self).indentation_stack@[i]);
                if j < old(self).indentation_stack@.len() {
                    assert(self.indentation_stack@[j] == old(self).indentation_stack@[j]);
                } else if len > 0 {
                    assert(old(self).indentation_stack@[i] <= old(self).indentation_stack@[len - 1]);
                }
            }
            return Ok(());
        }
        proof {
            lemma_levels_within_matches(self.indentation_stack@, w);
        }
        let (count, last_popped) = pop_wider(&mut self.indentation_stack, w);
        self.pending_deindents = count;
        self.pending_span = span;
        self.pending_start = self.current_start;
        self.start_of_line = false;
        assert(self.depth@ == self.indentation_stack@.len() + self.pending_deindents);
        assert forall|k: int|
            0 <= k < self.indentation_stack@.len() implies #[trigger] self.indentation_stack@[k]
            > 0 by {
            assert(self.indentation_stack@[k] == old(self).indentation_stack@[k]);
        }
        assert forall|i: int, j: int|
            0 <= i < j < self.indentation_stack@.len() implies #[trigger] self.indentation_stack@[i]
            < #[trigger] self.indentation_stack@[j] by {
            assert(self.indentation_stack@[i] == old(self).indentation_stack@[i]);
            assert(self.indentation_stack@[j] == old(self).indentation_stack@[j]);
        }
        assert(exists|e: int|
            self.pending_start@ <= e <= self.source().len() && self.pending_span == span_of(
                self.source(),
                self.pending_start@,
                e,
            )) by {
            assert(self.pending_start@ <= self.lexer.pos() <= self.source().len()
                && self.pending_span == span_of(self.source(), self.pending_start@, self.lexer.pos()));
        }
        let rest = self.indentation_stack.len();
        let now_top = if rest == 0 {
            0
        } else {
            self.indentation_stack[rest - 1]
        };
        if now_top == w {
            Ok(())
        } else {
            Err(ParserError::new_indentation_miss_match(span, last_popped, w))
        }
    }

    /// The next token, whitespace and newlines included.
    fn next_with_whitespace(&mut self) -> (r: Result<Token, ParserError>)
        requires
            old(self).wf(),
            !old(self).queued_indent(),
        ensures
            final(self).wf(),
            !final(self).queued_indent(),
            r is Ok ==> layout_step(*old(self), *final(self), r->Ok_0),
            r is Ok && (r->Ok_0.kind is Whitespace || r->Ok_0.kind is EndLine) ==> final(self).stream()
                == old(self).stream(),
            r is Ok && !(r->Ok_0.kind is Whitespace || r->Ok_0.kind is EndLine) ==> {
                &&& old(self).stream().0.len() > 0
                &&& item_matches(r->Ok_0, old(self).stream().0[0], old(self).source())
                &&& final(self).stream() == (old(self).stream().0.drop_first(), old(self).stream().1)
            },
            r is Err ==> old(self).stream().0.len() == 0 && old(self).stream().1 == r->Err_0,
            r is Err && r->Err_0 is Indentation ==> span_within(
                r->Err_0->Indentation_0.span,
                old(self).source(),
            ),
            final(self).source() == old(self).source(),
            final(self).start_index() >= old(self).start_index(),
            r is Ok ==> {
                let t = r->Ok_0;
                &&& span_within(t.span, old(self).source())
                &&& loc_le(old(self).last_location(), t.span.lo)
                &&& t.span.lo == final(self).last_location()
                &&& !(t.kind is Comment)
                &&& !(t.kind is Whitespace || t.kind is Indent || t.kind is Deindent) ==> 0 <= final(self).emitted_index() < old(self).source().len() && raw_token_at(
                    t,
                    old(self).source(),
                    final(self).emitted_index(),
                )
                &&& (t.kind is Whitespace || t.kind is EndLine) ==> final(self).start_index() > old(self).start_index()
                &&& final(self).depth() == old(self).depth() + if t.kind is Indent {
                    1int
                } else if t.kind is Deindent {
                    -1int
                } else {
                    0int
                }
            },
            r is Err ==> final(self).depth() == old(self).depth() && (r->Err_0 is Indentation
                || r->Err_0 is EndOfTokenStream),
            r is Err && r->Err_0 is EndOfTokenStream ==> old(self).depth() == 0,
            r is Err && r->Err_0 is EndOfTokenStream ==> old(self).start_index()
                == old(self).source().len() && final(self).levels().len() == 0,
            r is Ok && (r->Ok_0.kind is Whitespace || r->Ok_0.kind is EndLine) ==> skippable(
                old(self).source(),
                old(self).start_index(),
                final(self).start_index(),
            ),
            r is Ok && (r->Ok_0.kind is Indent || r->Ok_0.kind is Deindent) ==> final(self).start_index()
                == old(self).start_index(),
            r is Ok && !(r->Ok_0.kind is Whitespace || r->Ok_0.kind is EndLine || r->Ok_0.kind is Indent
                || r->Ok_0.kind is Deindent) ==> skippable(
                old(self).source(),
                lexeme_end(old(self).source(), final(self).emitted_index()),
                final(self).start_index(),
            ),
            r is Err && r->Err_0 is Indentation ==> skippable(
                old(self).source(),
                old(self).start_index(),
                final(self).start_index(),
            ),
            r is Ok && !(r->Ok_0.kind is Whitespace || r->Ok_0.kind is EndLine || r->Ok_0.kind is Indent
                || r->Ok_0.kind is Deindent) ==> final(self).emitted_index() == old(self).start_index(),
            final(self).emitted_index() >= old(self).emitted_index(),
            loc_le(old(self).last_location(), final(self).last_location()),
            (r is Ok || r->Err_0 is Indentation) ==> final(self).work() < old(self).work(),
    {
        let ghost b = self.source();
        proof {
            lemma_location_bounded(b, self.emitted_start@);
            lemma_location_monotonic(b, self.emitted_start@, self.current_start@);
            lemma_span_of_within(b, self.current_start@, self.lexer.pos());
            lemma_span_of_within(b, b.len() as int, b.len() as int);
        }
        let ghost raw_pos = self.lexer.pos();
        let ghost cs0 = self.current_start@;
        let ghost l0 = self.indentation_stack@;
        let ghost st0 = self.stream();
        let ghost q0 = self.pending_deindents;
        let ghost sol0 = self.start_of_line;
        proof {
            lemma_levels_within_shorter(self.levels(), self.leading_width());
            if self.current_token is Some {
                assert(self.leading_width() == if is_space(b[cs0]) {
                    (hand_end(b, cs0) - cs0) as i64
                } else {
                    0i64
                });
            }
            if !self.pending_indent && self.pending_deindents == 0 {
                assert(st0 == layout_from(b, cs0, self.start_of_line, l0));
            }
        }
        match self.handle_indent() {
            Err(error) => {
                proof {
                    assert(st0 == layout_from(b, cs0, true, l0));
                }
                self.advance();
                proof {
                    lemma_skippable_join(b, old(self).current_start@, raw_pos, self.current_start@);
                }
                proof {
                    lemma_location_monotonic(b, self.emitted_start@, self.emitted_start@);
                }
                return Err(error);
            },
            Ok(()) => {},
        }
        let ghost pending_end: int = 0;
        if self.pending_indent || self.pending_deindents > 0 {
            proof {
                let e = choose|e: int|
                    self.pending_start@ <= e <= b.len() && self.pending_span == span_of(
                        b,
                        self.pending_start@,
                        e,
                    );
                lemma_span_of_within(b, self.pending_start@, e);
                lemma_location_monotonic(b, self.emitted_start@, self.pending_start@);
                pending_end = e;
            }
        }
        if self.pending_indent {
            self.pending_indent = false;
            self.depth = Ghost(self.depth@ + 1);
            self.emitted_start = self.pending_start;
            proof {
                assert(self.stream() == layout_from(b, cs0, false, self.indentation_stack@));
            }
            return Ok(Token { kind: TokenKind::Indent, span: self.pending_span });
        }
        if self.pending_deindents > 0 {
            let ghost before_pop = self.stream();
            proof {
                assert(before_pop == (seq![Layout::Deindent(self.pending_span)] + rest_from(
                    b,
                    cs0,
                    false,
                    self.indentation_stack@,
                    (self.pending_deindents - 1) as nat,
                    self.pending_span,
                ).0, rest_from(
                    b,
                    cs0,
                    false,
                    self.indentation_stack@,
                    (self.pending_deindents - 1) as nat,
                    self.pending_span,
                ).1));
                if q0 == 0 {
                    assert(sol0 && self.current_token is Some);
                    assert(self.indentation_stack@ == levels_within(l0, self.leading_width()));
                    assert(st0 == layout_from(b, cs0, true, l0));
                }
                assert(before_pop == st0);
            }
            self.pending_deindents = self.pending_deindents - 1;
            self.depth = Ghost(self.depth@ - 1);
            self.emitted_start = self.pending_start;
            assert(self.pending_start@ <= pending_end <= b.len() && self.pending_span == span_of(
                b,
                self.pending_start@,
                pending_end,
            ));
            assert((self.pending_indent || self.pending_deindents > 0) ==> {
                &&& self.emitted_start@ <= self.pending_start@ <= self.current_start@
                &&& exists|e: int|
                    self.pending_start@ <= e <= b.len() && self.pending_span == span_of(
                        b,
                        self.pending_start@,
                        e,
                    )
            });
            return Ok(Token { kind: TokenKind::Deindent, span: self.pending_span });
        }
        let ghost start = self.current_start@;
        let ghost raw_end = self.lexer.pos();
        let to_return = self.advance();
        proof {
            if to_return is Some && (to_return->Some_0.kind is Whitespace
                || to_return->Some_0.kind is EndLine) {
                lemma_skippable_join(b, start, raw_end, self.current_start@);
            }
        }
        proof {
            if to_return is Some {
                assert(self.indentation_stack@ == l0);
                assert(self.start_of_line == (b[cs0] == 10u8));
                assert(self.current_start@ == visible_start(b, hand_end(b, cs0)));
                assert(self.stream() == layout_from(
                    b,
                    visible_start(b, hand_end(b, cs0)),
                    b[cs0] == 10u8,
                    l0,
                ));
            } else {
                assert(self.stream() == layout_from(b, b.len() as int, self.start_of_line, l0));
            }
        }
        match to_return {
            Some(value) => {
                self.emitted_start = Ghost(start);
                Ok(value)
            },
            None => {
                if self.indentation_stack.len() > 0 {
                    self.indentation_stack.pop();
                    proof {
                        assert(self.indentation_stack@ == l0.drop_last());
                        assert(self.current_start@ == b.len());
                        assert(self.stream() == layout_from(
                            b,
                            b.len() as int,
                            self.start_of_line,
                            l0.drop_last(),
                        ));
                        assert(st0 == layout_from(b, b.len() as int, sol0, l0));
                        assert(self.stream().0 =~= st0.0.drop_first());
                    }
                    self.depth = Ghost(self.depth@ - 1);
                    self.emitted_start = Ghost(b.len() as int);
                    let here = self.lexer.location();
                    Ok(Token { kind: TokenKind::Deindent, span: Span { lo: here, hi: here } })
                } else {
                    Err(ParserError::new_end_of_token_stream(self.lexer.location()))
                }
            },
        }
    }

    /// The next token of the layout-aware stream: whitespace and newlines are
    /// consumed, `Indent` and `Deindent` mark where blocks open and close, and
    /// at the end of the input every open block is closed. Spans come in
    /// textual order and lie inside the input; the depth counts the blocks
    /// that the tokens handed out so far leave open, and is zero when the
    /// stream ends.
    pub fn next_token(&mut self) -> (r: Result<Token, ParserError>)
        requires
            old(self).wf(),
            !old(self).queued_indent(),
        ensures
            final(self).wf(),
            !final(self).queued_indent(),
            final(self).source() == old(self).source(),
            r is Ok ==> {
                &&& old(self).stream().0.len() > 0
                &&& item_matches(r->Ok_0, old(self).stream().0[0], old(self).source())
                &&& final(self).stream() == (old(self).stream().0.drop_first(), old(self).stream().1)
            },
            r is Err ==> old(self).stream().0.len() == 0 && old(self).stream().1 == r->Err_0,
            r is Err && r->Err_0 is Indentation ==> span_within(
                r->Err_0->Indentation_0.span,
                old(self).source(),
            ),
            r is Ok ==> exists|mid: IndentLexer<'a>|
                {
                    &&& layout_step(mid, *final(self), r->Ok_0)
                    &&& mid.source() == old(self).source()
                    &&& mid.levels() == old(self).levels()
                    &&& mid.queued_deindents() == old(self).queued_deindents()
                    &&& skippable(old(self).source(), old(self).start_index(), mid.start_index())
                },
            final(self).source() == old(self).source(),
            r is Ok ==> {
                let t = r->Ok_0;
                &&& visible_kind(t.kind)
                &&& span_within(t.span, old(self).source())
                &&& !(t.kind is Indent || t.kind is Deindent) ==> 0 <= final(self).emitted_index()
                    < old(self).source().len() && raw_token_at(
                    t,
                    old(self).source(),
                    final(self).emitted_index(),
                )
                &&& loc_le(old(self).last_location(), t.span.lo)
                &&& t.span.lo == final(self).last_location()
                &&& final(self).depth() == old(self).depth() + if t.kind is Indent {
                    1int
                } else if t.kind is Deindent {
                    -1int
                } else {
                    0int
                }
            },
            r is Err ==> r->Err_0 is Indentation || r->Err_0 is EndOfTokenStream,
            r is Err ==> final(self).depth() == old(self).depth(),
            r is Err && r->Err_0 is EndOfTokenStream ==> final(self).depth() == 0,
            r is Err && r->Err_0 is EndOfTokenStream ==> skippable(
                old(self).source(),
                old(self).start_index(),
                old(self).source().len() as int,
            ) && final(self).levels().len() == 0 && final(self).start_index() == old(self).source().len(),
            final(self).start_index() >= old(self).start_index(),
            r is Ok && !(r->Ok_0.kind is Indent || r->Ok_0.kind is Deindent) ==> skippable(
                old(self).source(),
                old(self).start_index(),
                final(self).emitted_index(),
            ),
            r is Ok && (r->Ok_0.kind is Indent || r->Ok_0.kind is Deindent) ==> skippable(
                old(self).source(),
                old(self).start_index(),
                final(self).start_index(),
            ),
            r is Ok && !(r->Ok_0.kind is Indent || r->Ok_0.kind is Deindent) ==> skippable(
                old(self).source(),
                lexeme_end(old(self).source(), final(self).emitted_index()),
                final(self).start_index(),
            ),
            r is Err && r->Err_0 is Indentation ==> skippable(
                old(self).source(),
                old(self).start_index(),
                final(self).start_index(),
            ),
            final(self).depth() >= 0,
            loc_le(old(self).last_location(), final(self).last_location()),
            (r is Ok || r->Err_0 is Indentation) ==> final(self).work() < old(self).work(),
    {
        loop
            invariant
                self.wf(),
                self.source() == old(self).source(),
                loc_le(old(self).last_location(), self.last_location()),
                self.depth() == old(self).depth(),
                self.work() <= old(self).work(),
                skippable(self.source(), old(self).start_index(), self.start_index()),
                !self.queued_indent(),
                self.levels() == old(self).levels(),
                self.queued_deindents() == old(self).queued_deindents(),
                self.stream() == old(self).stream(),
            decreases self.source().len() - self.start_index(),
        {
            let ghost here = self.start_index();
            let ghost mid = *self;
            let token = self.next_with_whitespace();
            proof {
                if token is Ok && (token->Ok_0.kind is Whitespace || token->Ok_0.kind is EndLine) {
                    lemma_skippable_join(self.source(), old(self).start_index(), here, self.start_index());
                }
            }
            match token {
                Err(e) => {
                    proof {
                        if e is Indentation {
                            lemma_skippable_join(self.source(), old(self).start_index(), here, self.start_index());
                        }
                    }
                    return Err(e);
                },
                Ok(t) => {
                    if !(t.is_whitespace() || matches!(t.kind, TokenKind::EndLine)) {
                        assert(layout_step(mid, *self, t) && mid.levels() == old(self).levels()
                            && skippable(old(self).source(), old(self).start_index(), mid.start_index()));
                        return Ok(t);
                    }
                },
            }
        }
    }

    /// The next token, `None` at the end of the input, or the error met.
    pub fn next(&mut self) -> (r: Option<Result<Token, ParserError>>)
        requires
            old(self).wf(),
            !old(self).queued_indent(),
        ensures
            final(self).wf(),
            !final(self).queued_indent(),
            final(self).source() == old(self).source(),
            r is None ==> final(self).depth() == 0 && final(self).levels().len() == 0 && skippable(
                old(self).source(),
                old(self).start_index(),
                old(self).source().len() as int,
            ),
            r is Some && r->Some_0 is Ok ==> visible_kind(r->Some_0->Ok_0.kind) && span_within(
                r->Some_0->Ok_0.span,
                old(self).source(),
            ),
            r is Some && r->Some_0 is Err ==> r->Some_0->Err_0 is Indentation,
            r is None <==> old(self).stream().0.len() == 0 && old(self).stream().1 is EndOfTokenStream,
            r is Some && r->Some_0 is Ok ==> {
                &&& old(self).stream().0.len() > 0
                &&& item_matches(r->Some_0->Ok_0, old(self).stream().0[0], old(self).source())
                &&& final(self).stream() == (old(self).stream().0.drop_first(), old(self).stream().1)
            },
            r is Some && r->Some_0 is Err ==> old(self).stream().0.len() == 0 && old(self).stream().1
                == r->Some_0->Err_0 && span_within(r->Some_0->Err_0->Indentation_0.span, old(self).source()),
    {
        match self.next_token() {
            Ok(token) => Some(Ok(token)),
            Err(error) => {
                if error.is_end_of_token_stream() {
                    None
                } else {
                    Some(Err(error))
                }
            },
        }
    }

    /// Reads the next raw token into `current_token`, merging a run of
    /// whitespace into one token, and notes whether a line starts there;
    /// gives back the token that was at hand.
    fn advance(&mut self) -> (expelled: Option<Token>)
        requires
            old(self).wf(),
        ensures
            final(self).wf(),
            expelled == old(self).current_token,
            final(self).source() == old(self).source(),
            final(self).depth@ == old(self).depth@,
            final(self).emitted_start@ == old(self).emitted_start@,
            final(self).indentation_stack@ == old(self).indentation_stack@,
            final(self).pending_indent == old(self).pending_indent,
            final(self).pending_deindents == old(self).pending_deindents,
            final(self).pending_span == old(self).pending_span,
            final(self).pending_start@ == old(self).pending_start@,
            final(self).current_start@ >= old(self).current_start@,
            old(self).current_token is Some ==> final(self).current_start@ > old(self).current_start@,
            old(self).current_token is None ==> final(self).current_token is None,
            skippable(old(self).source(), old(self).lexer.pos(), final(self).current_start@),
            final(self).current_start@ == visible_start(old(self).source(), old(self).lexer.pos()),
            !old(self).pending_indent && old(self).pending_deindents == 0 ==> final(self).start_of_line
                == (old(self).current_token is None || old(self).current_token->Some_0.kind is EndLine),
    {
        let (next, start) = read_merged(&mut self.lexer);
        let expelled = self.current_token.take();
        self.start_of_line = match &expelled {
            None => true,
            Some(t) => matches!(t.kind, TokenKind::EndLine),
        };
        self.current_token = next;
        self.current_start = start;
        if self.pending_indent || self.pending_deindents > 0 {
            self.start_of_line = false;
        }
        proof {
            let b = self.source();
            if self.pending_indent || self.pending_deindents > 0 {
                let e = choose|e: int|
                    self.pending_start@ <= e <= b.len() && self.pending_span == span_of(
                        b,
                        self.pending_start@,
                        e,
                    );
                assert(self.pending_start@ <= e <= b.len() && self.pending_span == span_of(
                    b,
                    self.pending_start@,
                    e,
                ));
            }
        }
        expelled
    }
}

/// Closes every level wider than `w` at the top of the stack; gives how
/// many were closed and the last of them.
fn pop_wider(stack: &mut Vec<i64>, w: i64) -> (r: (usize, i64))
    requires
        old(stack)@.len() > 0,
        old(stack)@.last() > w,
    ensures
        r.0 >= 1,
        r.0 + final(stack)@.len() == old(stack)@.len(),
        final(stack)@ == old(stack)@.subrange(0, final(stack)@.len() as int),
        r.1 == old(stack)@[final(stack)@.len() as int],
        r.1 > w,
        final(stack)@.len() > 0 ==> final(stack)@.last() <= w,
        final(stack)@ == levels_within(old(stack)@, w),
{
    let ghost orig = stack@;
    let n = stack.len();
    let mut count: usize = 0;
    let mut last: i64 = w;
    while stack.len() > 0 && stack[stack.len() - 1] > w
        invariant
            count + stack@.len() == orig.len(),
            orig.len() == n,
            stack@ == orig.subrange(0, stack@.len() as int),
            count == 0 ==> stack@ == orig,
            count > 0 ==> last == orig[stack@.len() as int] && last > w,
            levels_within(orig, w) == levels_within(stack@, w),
        decreases stack@.len(),
    {
        let ghost before = stack@;
        last = stack.pop().unwrap();
        assert(before.drop_last() =~= stack@);
        count = count + 1;
    }
    (count, last)
}

/// Reads the next token that is not a comment, with a run of whitespace
/// merged into one token; also gives the index where it starts.
fn read_merged(lexer: &mut Lexer) -> (r: (Option<Token>, Ghost<int>))
    requires
        old(lexer).wf(),
    ensures
        final(lexer).wf(),
        final(lexer).source() == old(lexer).source(),
        final(lexer).pos() >= old(lexer).pos(),
        ({
            let b = old(lexer).source();
            let start = r.1@;
            &&& skippable(b, old(lexer).pos(), start)
            &&& start == visible_start(b, old(lexer).pos())
            &&& match r.0 {
                None => final(lexer).pos() == b.len() && start == b.len(),
                Some(t) => {
                    &&& old(lexer).pos() <= start < final(lexer).pos()
                    &&& t.span == span_of(b, start, final(lexer).pos())
                    &&& !(t.kind is Comment || t.kind is Indent || t.kind is Deindent)
                    &&& (t.kind is Whitespace ==> t.kind->Whitespace_0 == final(lexer).pos()
                        - start)
                    &&& (!(t.kind is Whitespace) ==> raw_token_at(t, b, start) && final(lexer).pos()
                        == lexeme_end(b, start))
                    &&& start < b.len() && b[start] != 35u8
                    &&& final(lexer).pos() == hand_end(b, start)
                    &&& (t.kind is Whitespace <==> is_space(b[start]))
                    &&& (t.kind is EndLine <==> b[start] == 10u8)
                    &&& (t.kind is Whitespace || t.kind is EndLine) ==> skippable(
                        b,
                        start,
                        final(lexer).pos(),
                    )
                },
            }
        }),
{
    let ghost b = lexer.source();
    let ghost before = lexer.pos();
    let next = lexer.next();
    let ghost start = visible_start(b, before);
    proof {
        lemma_run_ends(b, before);
        lemma_line_end_stops(b, before);
        if before < b.len() && b[before] == 35u8 {
            lemma_lexeme_end_advances(b, before);
            assert(lexeme_end(b, before) == start);
            assert(skippable(b, start, start));
        }
        assert(skippable(b, before, start));
    }
    match next {
        None => (None, Ghost(b.len() as int)),
        Some(t) => {
            proof {
                lemma_lexeme_end_advances(b, start);
            }
            if t.is_whitespace() {
                assert(is_space(b[start]));
                assert(lexeme_end(b, start) == start + 1);
                let merged = merge_whitespace_run(lexer, t, Ghost(start));
                proof {
                    lemma_spaces_skippable(b, start, lexer.pos());
                }
                (Some(merged), Ghost(start))
            } else {
                proof {
                    if t.kind is EndLine {
                        assert(b[start] == 10u8);
                        lemma_run_ends(b, start);
                        assert(skippable(b, lexeme_end(b, start), lexeme_end(b, start)));
                    }
                }
                (Some(t), Ghost(start))
            }
        },
    }
}

/// Extends a whitespace token over the rest of its run.
fn merge_whitespace_run(lexer: &mut Lexer, first: Token, start: Ghost<int>) -> (r: Token)
    requires
        old(lexer).wf(),
        0 <= start@ < old(lexer).pos(),
        first.kind == TokenKind::Whitespace((old(lexer).pos() - start@) as i64),
        first.span == span_of(old(lexer).source(), start@, old(lexer).pos()),
        forall|x: int| start@ <= x < old(lexer).pos() ==> is_space(#[trigger] old(lexer).source()[x]),
    ensures
        forall|x: int| start@ <= x < final(lexer).pos() ==> is_space(#[trigger] old(lexer).source()[x]),
        final(lexer).pos() == spaces_end(old(lexer).source(), start@),
        final(lexer).wf(),
        final(lexer).source() == old(lexer).source(),
        final(lexer).pos() >= old(lexer).pos(),
        r.kind == TokenKind::Whitespace((final(lexer).pos() - start@) as i64),
        r.span == span_of(old(lexer).source(), start@, final(lexer).pos()),
{
    let ghost b = lexer.source();
    assert(b.len() <= i64::MAX);
    let mut span = first.span;
    let mut width: i64 = match first.kind {
        TokenKind::Whitespace(a) => a,
        _ => 1,
    };
    while lexer.at_whitespace()
        invariant
            lexer.wf(),
            lexer.source() == b,
            0 <= start@ < lexer.pos() <= b.len(),
            b.len() <= i64::MAX,
            lexer.pos() >= old(lexer).pos(),
            width == lexer.pos() - start@,
            span == span_of(b, start@, lexer.pos()),
            forall|x: int| start@ <= x < lexer.pos() ==> is_space(#[trigger] b[x]),
        decreases b.len() - lexer.pos(),
    {
        let ghost p = lexer.pos();
        assert(visible_start(b, p) == p);
        assert(lexeme_end(b, p) == p + 1);
        let extra = lexer.next();
        match extra {
            Some(x) => {
                width = width + 1;
                span = span.merge(&x.span);
            },
            None => {},
        }
    }
    proof {
        lemma_spaces_end_at(b, start@, lexer.pos());
    }
    Token { kind: TokenKind::Whitespace(width), span }
}

/// Whether the lexer can read the whole of `s`: every character is in its
/// alphabet, every integer fits in `i64`, and the input is not longer than
/// an `i64` can count.
pub fn is_lexable(s: &str) -> (r: bool)
    ensures
        r == lexable(s.spec_bytes()),
{
    let b = s.as_bytes();
    let len = b.len();
    if len as u64 > 9223372036854775807u64 {
        return false;
    }
    let mut i: usize = 0;
    while i < len
        invariant
            i <= len == b@.len(),
            b@ == s.spec_bytes(),
            b@.len() <= i64::MAX,
            lexable_from(b@, 0) == lexable_from(b@, i as int),
        decreases len - i,
    {
        assert(lexable_from(b@, i as int) == (recognized(b@, i as int) && lexable_from(
            b@,
            lexeme_end(b@, i as int),
        )));
        if !recognized_exec(b, i) {
            return false;
        }
        let next = lexeme_end_exec(b, i);
        proof {
            lemma_lexeme_end_advances(b@, i as int);
        }
        i = next;
    }
    true
}

/// Whether a lexeme starts at `i`.
fn recognized_exec(b: &[u8], i: usize) -> (r: bool)
    requires
        i < b@.len(),
    ensures
        r == recognized(b@, i as int),
{
    let c = b[i];
    let eq = i + 1 < b.len() && b[i + 1] == 61u8;
    if is_digit_byte(c) {
        let e = digits_end_exec(b, i);
        proof {
            lemma_run_ends(b@, i as int + 1);
        }
        return digits_fit(b, i, e);
    }
    is_space_byte(c) || c == 10u8 || c == 35u8 || is_ident_start_byte(c) || c == 61u8 || c == 60u8
        || c == 62u8 || c == 43u8 || c == 45u8 || c == 42u8 || c == 47u8 || c == 40u8 || c == 41u8
        || c == 59u8 || (c == 33u8 && eq)
}

/// End of the longest lexeme that starts at `i`.
fn lexeme_end_exec(b: &[u8], i: usize) -> (r: usize)
    requires
        i < b@.len(),
    ensures
        r == lexeme_end(b@, i as int),
{
    let c = b[i];
    proof {
        lemma_run_ends(b@, i as int + 1);
    }
    if is_space_byte(c) {
        i + 1
    } else if c == 10u8 {
        newlines_end_exec(b, i)
    } else if c == 35u8 {
        line_end_exec(b, i)
    } else if is_digit_byte(c) {
        digits_end_exec(b, i)
    } else if is_ident_start_byte(c) {
        ident_end_exec(b, i)
    } else if (c == 61u8 || c == 33u8 || c == 60u8 || c == 62u8) && i + 1 < b.len() && b[i + 1]
        == 61u8 {
        i + 2
    } else {
        i + 1
    }
}

/// Whether the value of the digits `b[i..j]` fits in `i64`.
fn digits_fit(b: &[u8], i: usize, j: usize) -> (r: bool)
    requires
        i < j == digits_end(b@, i as int),
        j <= b@.len(),
    ensures
        r == (decimal_value(b@.subrange(i as int, j as int)) <= i64::MAX),
{
    let ghost d = b@.subrange(i as int, j as int);
    assert forall|x: int| 0 <= x < d.len() implies is_digit(#[trigger] d[x]) by {
        lemma_digits_run(b@, i as int, i + x);
    }
    let mut k = i;
    let mut v: i64 = 0;
    while k < j
        invariant
            i <= k <= j <= b@.len(),
            d == b@.subrange(i as int, j as int),
            forall|x: int| 0 <= x < d.len() ==> is_digit(#[trigger] d[x]),
            v == decimal_value(b@.subrange(i as int, k as int)),
            v >= 0,
        decreases j - k,
    {
        assert(d[k - i] == b@[k as int]);
        assert(is_digit(d[k - i]));
        let digit = (b[k] - 48u8) as i64;
        proof {
            let p = b@.subrange(i as int, k as int + 1);
            assert(p.drop_last() =~= b@.subrange(i as int, k as int));
            assert(p =~= d.subrange(0, k - i + 1));
            lemma_decimal_prefix(d, k - i + 1);
            assert(p.last() == b@[k as int]);
            assert(decimal_value(p) == v * 10 + digit);
        }
        let limit = (9223372036854775807i64 - digit) / 10;
        if v > limit {
            assert(v * 10 + digit > i64::MAX) by (nonlinear_arith)
                requires
                    v > limit,
                    limit == (i64::MAX - digit) / 10,
                    0 <= digit <= 9,
            ;
            return false;
        }
        assert(v * 10 + digit <= i64::MAX) by (nonlinear_arith)
            requires
                v <= limit,
                limit == (i64::MAX - digit) / 10,
                0 <= digit <= 9,
                v >= 0,
        ;
        v = v * 10 + digit;
        k = k + 1;
    }
    assert(b@.subrange(i as int, k as int) =~= d);
    true
}

fn is_space_byte(c: u8) -> (r: bool)
    ensures
        r == is_space(c),
{
    c == 32u8 || c == 9u8 || c == 13u8
}

fn is_digit_byte(c: u8) -> (r: bool)
    ensures
        r == is_digit(c),
{
    48u8 <= c && c <= 57u8
}

fn is_ident_start_byte(c: u8) -> (r: bool)
    ensures
        r == is_ident_start(c),
{
    (65u8 <= c && c <= 90u8) || (97u8 <= c && c <= 122u8) || c == 95u8
}

fn digits_end_exec(b: &[u8], i: usize) -> (r: usize)
    requires
        i <= b@.len(),
    ensures
        r == digits_end(b@, i as int),
{
    let mut k = i;
    while k < b.len() && is_digit_byte(b[k])
        invariant
            i <= k <= b@.len(),
            digits_end(b@, i as int) == digits_end(b@, k as int),
        decreases b@.len() - k,
    {
        k = k + 1;
    }
    k
}

fn ident_end_exec(b: &[u8], i: usize) -> (r: usize)
    requires
        i <= b@.len(),
    ensures
        r == ident_end(b@, i as int),
{
    let mut k = i;
    while k < b.len() && (is_ident_start_byte(b[k]) || is_digit_byte(b[k]))
        invariant
            i <= k <= b@.len(),
            ident_end(b@, i as int) == ident_end(b@, k as int),
        decreases b@.len() - k,
    {
        k = k + 1;
    }
    k
}

fn newlines_end_exec(b: &[u8], i: usize) -> (r: usize)
    requires
        i <= b@.len(),
    ensures
        r == newlines_end(b@, i as int),
{
    let mut k = i;
    while k < b.len() && b[k] == 10u8
        invariant
            i <= k <= b@.len(),
            newlines_end(b@, i as int) == newlines_end(b@, k as int),
        decreases b@.len() - k,
    {
        k = k + 1;
    }
    k
}

fn line_end_exec(b: &[u8], i: usize) -> (r: usize)
    requires
        i <= b@.len(),
    ensures
        r == line_end(b@, i as int),
        r < b@.len() ==> b@[r as int] == 10u8,
{
    let mut k = i;
    while k < b.len() && b[k] != 10u8
        invariant
            i <= k <= b@.len(),
            line_end(b@, i as int) == line_end(b@, k as int),
        decreases b@.len() - k,
    {
        k = k + 1;
    }
    k
}

/// The location of index `to`, from the location of index `from`.
fn advance_location(b: &[u8], from: usize, to: usize, loc: SourceLocation) -> (r: SourceLocation)
    requires
        from <= to <= b@.len(),
        loc == location(b@, from as int),
    ensures
        r == location(b@, to as int),
{
    let mut k = from;
    let mut l = loc;
    while k < to
        invariant
            from <= k <= to <= b@.len(),
            l == location(b@, k as int),
        decreases to - k,
    {
        proof {
            lemma_location_bounded(b@, k as int);
            lemma_location_bounded(b@, k as int + 1);
        }
        if b[k] == 10u8 {
            l = SourceLocation { row: l.row + 1, column: 0 };
        } else {
            l = SourceLocation { row: l.row, column: l.column + 1 };
        }
        k = k + 1;
    }
    l
}

/// The value of the digits `b[i..j]`.
fn decimal_exec(b: &[u8], i: usize, j: usize) -> (r: i64)
    requires
        i < j == digits_end(b@, i as int),
        j <= b@.len(),
        decimal_value(b@.subrange(i as int, j as int)) <= i64::MAX,
    ensures
        r == decimal_value(b@.subrange(i as int, j as int)),
{
    let ghost d = b@.subrange(i as int, j as int);
    assert forall|x: int| 0 <= x < d.len() implies is_digit(#[trigger] d[x]) by {
        lemma_digits_run(b@, i as int, i + x);
    }
    let mut k = i;
    let mut v: i64 = 0;
    while k < j
        invariant
            i <= k <= j <= b@.len(),
            d == b@.subrange(i as int, j as int),
            forall|x: int| 0 <= x < d.len() ==> is_digit(#[trigger] d[x]),
            decimal_value(d) <= i64::MAX,
            v == decimal_value(b@.subrange(i as int, k as int)),
            v >= 0,
        decreases j - k,
    {
        proof {
            let p = b@.subrange(i as int, k as int + 1);
            assert(p.drop_last() =~= b@.subrange(i as int, k as int));
            assert(p =~= d.subrange(0, k - i + 1));
            lemma_decimal_prefix(d, k - i + 1);
            assert(is_digit(d[k - i]));
            assert(d[k - i] == b@[k as int]);
            assert(p.last() == b@[k as int]);
            assert(decimal_value(p) == v * 10 + (b@[k as int] - 48));
        }
        v = v * 10 + (b[k] - 48u8) as i64;
        k = k + 1;
    }
    v
}

/// The kind of the identifier-shaped lexeme `b[i..j]`: a keyword or a name.
fn word_kind(b: &[u8], i: usize, j: usize) -> (r: TokenKind)
    requires
        i < j <= b@.len(),
    ensures
        ({
            let text = b@.subrange(i as int, j as int);
            if text == seq![99u8, 111u8, 110u8, 115u8, 116u8] {
                r == TokenKind::Const
            } else if text == seq![111u8, 112u8, 116u8] {
                r == TokenKind::Opt
            } else if text == seq![97u8, 108u8, 116u8] {
                r == TokenKind::Alt
            } else if text == seq![111u8, 114u8] {
                r == TokenKind::Or
            } else if text == seq![97u8, 110u8, 100u8] {
                r == TokenKind::And
            } else {
                r is Ident && r->Ident_0@ == ascii_text(text)
            }
        }),
{
    if same_word(b, i, j, &vec![99u8, 111u8, 110u8, 115u8, 116u8]) {
        return TokenKind::Const;
    }
    if same_word(b, i, j, &vec![111u8, 112u8, 116u8]) {
        return TokenKind::Opt;
    }
    if same_word(b, i, j, &vec![97u8, 108u8, 116u8]) {
        return TokenKind::Alt;
    }
    if same_word(b, i, j, &vec![111u8, 114u8]) {
        return TokenKind::Or;
    }
    if same_word(b, i, j, &vec![97u8, 110u8, 100u8]) {
        return TokenKind::And;
    }
    TokenKind::Ident(ascii_string(b, i, j))
}

/// The bytes `b[i..j]` are the word `w`.
fn same_word(b: &[u8], i: usize, j: usize, w: &Vec<u8>) -> (r: bool)
    requires
        i <= j <= b@.len(),
    ensures
        r == (b@.subrange(i as int, j as int) == w@),
{
    let ghost text = b@.subrange(i as int, j as int);
    if j - i != w.len() {
        return false;
    }
    let mut k: usize = 0;
    while k < w.len()
        invariant
            0 <= k <= w@.len(),
            j - i == w@.len(),
            i <= j <= b@.len(),
            text == b@.subrange(i as int, j as int),
            forall|x: int| 0 <= x < k ==> text[x] == w@[x],
        decreases w@.len() - k,
    {
        if b[i + k] != w[k] {
            assert(text[k as int] != w@[k as int]);
            return false;
        }
        k = k + 1;
    }
    assert(text =~= w@);
    true
}

/// The bytes `b[i..j]` as a string of the same characters.
fn ascii_string(b: &[u8], i: usize, j: usize) -> (r: String)
    requires
        i <= j <= b@.len(),
    ensures
        r@ == ascii_text(b@.subrange(i as int, j as int)),
{
    let mut s = String::new();
    let mut k = i;
    while k < j
        invariant
            i <= k <= j <= b@.len(),
            s@ == ascii_text(b@.subrange(i as int, k as int)),
        decreases j - k,
    {
        push_char(&mut s, b[k] as char);
        assert(ascii_text(b@.subrange(i as int, k + 1)) =~= ascii_text(
            b@.subrange(i as int, k as int),
        ).push(b@[k as int] as char));
        k = k + 1;
    }
    s
}

} // verus!
