use vstd::prelude::*;

verus! {

/// A position in the source: both zero-based, the column counted in bytes
/// from the last newline.
#[derive(Debug, Clone, Copy, PartialEq, Eq)]
pub struct SourceLocation {
    pub row: usize,
    pub column: usize,
}

/// A half-open range of source positions: `lo` inclusive, `hi` exclusive.
#[derive(Debug, Clone, Copy, PartialEq, Eq)]
pub struct Span {
    pub lo: SourceLocation,
    pub hi: SourceLocation,
}

/// Number of newlines among the first `i` bytes of `b`.
pub open spec fn row_at(b: Seq<u8>, i: int) -> nat
    decreases i,
{
    if i <= 0 {
        0
    } else if b[i - 1] == 10u8 {
        row_at(b, i - 1) + 1
    } else {
        row_at(b, i - 1)
    }
}

/// Number of bytes between the last newline before index `i` and `i`.
pub open spec fn column_at(b: Seq<u8>, i: int) -> nat
    decreases i,
{
    if i <= 0 {
        0
    } else if b[i - 1] == 10u8 {
        0
    } else {
        column_at(b, i - 1) + 1
    }
}

/// The location of byte index `i` of the source `b`.
pub open spec fn location(b: Seq<u8>, i: int) -> SourceLocation {
    SourceLocation { row: row_at(b, i) as usize, column: column_at(b, i) as usize }
}

/// `a` comes no later than `b` in textual order.
pub open spec fn loc_le(a: SourceLocation, b: SourceLocation) -> bool {
    a.row < b.row || (a.row == b.row && a.column <= b.column)
}

/// The span from byte index `i` to byte index `j` of the source `b`.
pub open spec fn span_of(b: Seq<u8>, i: int, j: int) -> Span {
    Span { lo: location(b, i), hi: location(b, j) }
}

/// The span is ordered and lies inside the source `b`.
pub open spec fn span_within(sp: Span, b: Seq<u8>) -> bool {
    loc_le(sp.lo, sp.hi) && loc_le(sp.hi, location(b, b.len() as int))
}

pub proof fn lemma_location_bounded(b: Seq<u8>, i: int)
    requires
        0 <= i,
    ensures
        row_at(b, i) <= i,
        column_at(b, i) <= i,
    decreases i,
{
    if i > 0 {
        lemma_location_bounded(b, i - 1);
    }
}

/// Locations of byte indices follow the order of the indices.
pub proof fn lemma_location_monotonic(b: Seq<u8>, i: int, j: int)
    requires
        0 <= i <= j,
        j <= usize::MAX,
    ensures
        loc_le(location(b, i), location(b, j)),
    decreases j - i,
{
    lemma_location_bounded(b, i);
    lemma_location_bounded(b, j);
    if i < j {
        lemma_location_monotonic(b, i, j - 1);
        lemma_location_bounded(b, j - 1);
    }
}

/// Every span between two indices of the source lies inside it.
pub proof fn lemma_span_of_within(b: Seq<u8>, i: int, j: int)
    requires
        0 <= i <= j <= b.len(),
        b.len() <= usize::MAX,
    ensures
        span_within(span_of(b, i, j), b),
{
    lemma_location_monotonic(b, i, j);
    lemma_location_monotonic(b, j, b.len() as int);
}

impl Span {
    /// Joins two spans: the start of `self` and the end of `other`.
    pub fn merge(self, other: &Span) -> (r: Span)
        ensures
            r.lo == self.lo,
            r.hi == other.hi,
    {
        Span { lo: self.lo, hi: other.hi }
    }

    /// The empty span at the start of the source.
    pub fn new() -> (r: Span)
        ensures
            r.lo.row == 0 && r.lo.column == 0,
            r.hi.row == 0 && r.hi.column == 0,
    {
        Span { lo: SourceLocation { row: 0, column: 0 }, hi: SourceLocation { row: 0, column: 0 } }
    }
}

#[derive(Debug, Clone, PartialEq)]
pub enum TokenKind {
    Ident(String),
    Integer(i64),
    Equals,
    Different,
    Less,
    LessEqual,
    Greater,
    GreaterEqual,
    Assign,
    Plus,
    Minus,
    Or,
    And,
    Star,
    Slash,
    LParen,
    RParen,
    Semi,
    Alt,
    Const,
    Opt,
    Whitespace(i64),
    Comment,
    EndLine,
    Indent,
    Deindent,
}

impl TokenKind {
    /// A copy of this kind, equal to it.
    pub fn duplicate(&self) -> (r: TokenKind)
        ensures
            r == *self,
    {
        match self {
            TokenKind::Ident(s) => TokenKind::Ident(s.clone()),
            TokenKind::Integer(i) => TokenKind::Integer(*i),
            TokenKind::Whitespace(i) => TokenKind::Whitespace(*i),
            TokenKind::Equals => TokenKind::Equals,
            TokenKind::Different => TokenKind::Different,
            TokenKind::Less => TokenKind::Less,
            TokenKind::LessEqual => TokenKind::LessEqual,
            TokenKind::Greater => TokenKind::Greater,
            TokenKind::GreaterEqual => TokenKind::GreaterEqual,
            TokenKind::Assign => TokenKind::Assign,
            TokenKind::Plus => TokenKind::Plus,
            TokenKind::Minus => TokenKind::Minus,
            TokenKind::Or => TokenKind::Or,
            TokenKind::And => TokenKind::And,
            TokenKind::Star => TokenKind::Star,
            TokenKind::Slash => TokenKind::Slash,
            TokenKind::LParen => TokenKind::LParen,
            TokenKind::RParen => TokenKind::RParen,
            TokenKind::Semi => TokenKind::Semi,
            TokenKind::Alt => TokenKind::Alt,
            TokenKind::Const => TokenKind::Const,
            TokenKind::Opt => TokenKind::Opt,
            TokenKind::Comment => TokenKind::Comment,
            TokenKind::EndLine => TokenKind::EndLine,
            TokenKind::Indent => TokenKind::Indent,
            TokenKind::Deindent => TokenKind::Deindent,
        }
    }
}

#[derive(Debug, Clone)]
pub struct Token {
    pub kind: TokenKind,
    pub span: Span,
}

impl Token {
    pub fn new(kind: TokenKind, lo: SourceLocation, hi: SourceLocation) -> (r: Token)
        ensures
            r.kind == kind,
            r.span.lo == lo,
            r.span.hi == hi,
    {
        Token { kind, span: Span { lo, hi } }
    }

    /// A copy of this token, equal to it.
    pub fn duplicate(&self) -> (r: Token)
        ensures
            r == *self,
    {
        Token { kind: self.kind.duplicate(), span: self.span }
    }

    pub fn is_whitespace(&self) -> (r: bool)
        ensures
            r == self.kind is Whitespace,
    {
        match self.kind {
            TokenKind::Whitespace(_) => true,
            _ => false,
        }
    }

    /// Two whitespace tokens make one whose width is the sum of theirs and
    /// whose span runs from the first to the second; any other pair makes none.
    pub fn try_merge_whitespace(&self, other: &Token) -> (r: Option<Token>)
        requires
            self.kind is Whitespace && other.kind is Whitespace ==> i64::MIN
                <= self.kind->Whitespace_0 + other.kind->Whitespace_0 <= i64::MAX,
        ensures
            r is Some <==> (self.kind is Whitespace && other.kind is Whitespace),
            r is Some ==> r->Some_0.kind == TokenKind::Whitespace(
                (self.kind->Whitespace_0 + other.kind->Whitespace_0) as i64,
            ) && r->Some_0.span == self.span.merge_spec(other.span),
    {
        match (&self.kind, &other.kind) {
            (TokenKind::Whitespace(a), TokenKind::Whitespace(b)) => Some(
                Token { kind: TokenKind::Whitespace(*a + *b), span: self.span.merge(&other.span) },
            ),
            _ => None,
        }
    }

    pub fn get_identifier(&self) -> (r: Option<String>)
        ensures
            r is Some <==> self.kind is Ident,
            r is Some ==> r->Some_0 == self.kind->Ident_0,
    {
        match &self.kind {
            TokenKind::Ident(s) => Some(s.clone()),
            _ => None,
        }
    }

    /// No token carries a floating-point value: always `None`.
    pub fn get_float(&self) -> (r: Option<i64>)
        ensures
            r is None,
    {
        None
    }

    pub fn get_int(&self) -> (r: Option<i64>)
        ensures
            r is Some <==> self.kind is Integer,
            r is Some ==> r->Some_0 == self.kind->Integer_0,
    {
        match self.kind {
            TokenKind::Integer(a) => Some(a),
            _ => None,
        }
    }

    pub fn merge_span(&self, other: &Span) -> (r: Span)
        ensures
            r.lo == self.span.lo,
            r.hi == other.hi,
    {
        self.span.merge(other)
    }
}

impl Span {
    pub open spec fn merge_spec(self, other: Span) -> Span {
        Span { lo: self.lo, hi: other.hi }
    }
}

} // verus!
