use vstd::prelude::*;
use vstd::string::StringSliceAdditionalSpecFns;

use crate::alternative::AlternativeDeclaration;
use crate::constant::{ConstantBody, ConstantDeclaration};
use crate::declaration::Declaration;
use crate::document::Document;
use crate::error::{ParserError, UnexpectedTokenError};
use crate::option::{OptionDeclaration, OptionField};
use crate::expression::{BinaryExpressionKind, Expression, ExpressionEnum, Literal, UnaryExpressionKind};
use crate::lexer::{
    is_space, item_matches, kept_lexemes, layout, Layout, layout_token, lemma_skippable_keeps_nothing, lexable, lexeme_end,
    raw_token_at, visible_kind, IndentLexer,
};
use crate::token::{loc_le, span_within, SourceLocation, Span, Token, TokenKind};

verus! {

/// The token at index `i` exists and has kind `k`.
pub open spec fn token_is(ts: Seq<Token>, i: int, k: TokenKind) -> bool {
    0 <= i < ts.len() && ts[i].kind == k
}

/// What the parser reports when the token at index `i` does not fit: that
/// token, or what ended the stream when there is none.
pub open spec fn failure_at(ts: Seq<Token>, end: ParserError, i: int) -> ParserError {
    if 0 <= i < ts.len() {
        ParserError::UnexpectedToken(UnexpectedTokenError { token: ts[i] })
    } else {
        end
    }
}

/// From the start of token `i` to the end of token `j - 1`.
pub open spec fn span_between(ts: Seq<Token>, i: int, j: int) -> Span {
    Span { lo: ts[i].span.lo, hi: ts[j - 1].span.hi }
}

/// The operator of precedence level `n` at token `i`, if there is one there.
/// Levels, loosest first: `or`; `and`; `==` `!=`; `<` `<=` `>` `>=`; `+` `-`;
/// `*` `/`.
pub open spec fn level_operator(n: nat, ts: Seq<Token>, i: int) -> Option<BinaryExpressionKind> {
    if !(0 <= i < ts.len()) {
        None
    } else {
        let k = ts[i].kind;
        if n == 1 && k == TokenKind::Or {
            Some(BinaryExpressionKind::Or)
        } else if n == 2 && k == TokenKind::And {
            Some(BinaryExpressionKind::And)
        } else if n == 3 && k == TokenKind::Equals {
            Some(BinaryExpressionKind::Equal)
        } else if n == 3 && k == TokenKind::Different {
            Some(BinaryExpressionKind::Different)
        } else if n == 4 && k == TokenKind::Less {
            Some(BinaryExpressionKind::Less)
        } else if n == 4 && k == TokenKind::LessEqual {
            Some(BinaryExpressionKind::LessEqual)
        } else if n == 4 && k == TokenKind::Greater {
            Some(BinaryExpressionKind::Greater)
        } else if n == 4 && k == TokenKind::GreaterEqual {
            Some(BinaryExpressionKind::GreaterEqual)
        } else if n == 5 && k == TokenKind::Plus {
            Some(BinaryExpressionKind::Add)
        } else if n == 5 && k == TokenKind::Minus {
            Some(BinaryExpressionKind::Sub)
        } else if n == 6 && k == TokenKind::Star {
            Some(BinaryExpressionKind::Mult)
        } else if n == 6 && k == TokenKind::Slash {
            Some(BinaryExpressionKind::Div)
        } else {
            None
        }
    }
}

/// The expression of precedence level `n` that starts at token `i`, with the
/// index of the token after it. Levels 1 to 6 are binary, each operand of
/// the next level and the right-hand side of the same level (so every
/// operator groups to the right); level 7 is a prefix `-` (negation) or `+`
/// (no effect); level 8 is a name, an integer, or an expression in
/// parentheses. Each node spans its tokens, parentheses included.
pub open spec fn expression_at(ts: Seq<Token>, end: ParserError, n: nat, i: int) -> Result<
    (Expression, int),
    ParserError,
>
    decreases ts.len() - i, 9 - n,
{
    if n >= 8 {
        if !(0 <= i < ts.len()) {
            Err(end)
        } else {
            let t = ts[i];
            match t.kind {
                TokenKind::Ident(s) => Ok(
                    (Expression { content: ExpressionEnum::Lit(Literal::Ident(s)), span: t.span }, i
                        + 1),
                ),
                TokenKind::Integer(v) => Ok(
                    (Expression { content: ExpressionEnum::Lit(Literal::Integer(v)), span: t.span }, i
                        + 1),
                ),
                TokenKind::LParen => match expression_at(ts, end, 1, i + 1) {
                    Err(e) => Err(e),
                    Ok((x, j)) => if token_is(ts, j, TokenKind::RParen) {
                        Ok((Expression { content: x.content, span: span_between(ts, i, j + 1) }, j + 1))
                    } else {
                        Err(failure_at(ts, end, j))
                    },
                },
                _ => Err(failure_at(ts, end, i)),
            }
        }
    } else if n == 7 {
        if token_is(ts, i, TokenKind::Minus) {
            match expression_at(ts, end, 7, i + 1) {
                Err(e) => Err(e),
                Ok((x, j)) => Ok(
                    (Expression {
                        content: ExpressionEnum::Una(UnaryExpressionKind::Neg, Box::new(x)),
                        span: span_between(ts, i, j),
                    }, j),
                ),
            }
        } else if token_is(ts, i, TokenKind::Plus) {
            expression_at(ts, end, 7, i + 1)
        } else {
            expression_at(ts, end, 8, i)
        }
    } else {
        match expression_at(ts, end, n + 1, i) {
            Err(e) => Err(e),
            Ok((lhs, j)) => match level_operator(n, ts, j) {
                None => Ok((lhs, j)),
                Some(op) => if i <= j {
                    match expression_at(ts, end, n, j + 1) {
                        Err(e) => Err(e),
                        Ok((rhs, k)) => Ok(
                            (Expression {
                                content: ExpressionEnum::Bin(op, Box::new(lhs), Box::new(rhs)),
                                span: span_between(ts, i, k),
                            }, k),
                        ),
                    }
                } else {
                    Err(end)
                },
            },
        }
    }
}

/// The token at index `i` exists and is a name.
pub open spec fn ident_at(ts: Seq<Token>, i: int) -> bool {
    0 <= i < ts.len() && ts[i].kind is Ident
}

/// Where the constant body that starts at token `i` ends: a name, then
/// `=` and an expression, or an indented block of one or more constant
/// bodies.
pub open spec fn constant_end(ts: Seq<Token>, end: ParserError, i: int) -> Result<int, ParserError>
    decreases ts.len() - i, 0int,
{
    if !ident_at(ts, i) {
        Err(failure_at(ts, end, i))
    } else if token_is(ts, i + 1, TokenKind::Assign) {
        match expression_at(ts, end, 1, i + 2) {
            Ok((_, j)) => Ok(j),
            Err(e) => Err(e),
        }
    } else if token_is(ts, i + 1, TokenKind::Indent) {
        if token_is(ts, i + 2, TokenKind::Deindent) {
            Err(failure_at(ts, end, i + 2))
        } else {
            constants_end(ts, end, i + 2)
        }
    } else {
        Err(failure_at(ts, end, i + 1))
    }
}

/// Where the block of constant bodies that starts at token `p` ends, its
/// closing `Deindent` included.
pub open spec fn constants_end(ts: Seq<Token>, end: ParserError, p: int) -> Result<int, ParserError>
    decreases ts.len() - p, 1int,
{
    if token_is(ts, p, TokenKind::Deindent) {
        Ok(p + 1)
    } else {
        match constant_end(ts, end, p) {
            Err(e) => Err(e),
            Ok(q) => if p < q <= ts.len() {
                constants_end(ts, end, q)
            } else {
                Err(end)
            },
        }
    }
}

/// Where the option body that starts at token `i` ends: a name, then
/// optionally an indented block of one or more fields.
pub open spec fn option_end(ts: Seq<Token>, end: ParserError, i: int) -> Result<int, ParserError>
    decreases ts.len() - i, 0int,
{
    if !ident_at(ts, i) {
        Err(failure_at(ts, end, i))
    } else if token_is(ts, i + 1, TokenKind::Indent) {
        if token_is(ts, i + 2, TokenKind::Deindent) {
            Err(failure_at(ts, end, i + 2))
        } else {
            fields_end(ts, end, i + 2)
        }
    } else {
        Ok(i + 1)
    }
}

/// Where the option field that starts at token `p` ends: a constant
/// declaration, or a nested option body.
pub open spec fn field_end(ts: Seq<Token>, end: ParserError, p: int) -> Result<int, ParserError>
    decreases ts.len() - p, 1int,
{
    if token_is(ts, p, TokenKind::Const) {
        constant_end(ts, end, p + 1)
    } else {
        option_end(ts, end, p)
    }
}

/// Where the block of option fields that starts at token `p` ends, its
/// closing `Deindent` included.
pub open spec fn fields_end(ts: Seq<Token>, end: ParserError, p: int) -> Result<int, ParserError>
    decreases ts.len() - p, 2int,
{
    if token_is(ts, p, TokenKind::Deindent) {
        Ok(p + 1)
    } else {
        match field_end(ts, end, p) {
            Err(e) => Err(e),
            Ok(q) => if p < q <= ts.len() {
                fields_end(ts, end, q)
            } else {
                Err(end)
            },
        }
    }
}

/// Where the block of option bodies that starts at token `p` ends, its
/// closing `Deindent` included.
pub open spec fn options_end(ts: Seq<Token>, end: ParserError, p: int) -> Result<int, ParserError>
    decreases ts.len() - p,
{
    if token_is(ts, p, TokenKind::Deindent) {
        Ok(p + 1)
    } else {
        match option_end(ts, end, p) {
            Err(e) => Err(e),
            Ok(q) => if p < q <= ts.len() {
                options_end(ts, end, q)
            } else {
                Err(end)
            },
        }
    }
}

/// Where the alternative body that starts at token `i` ends: a name, then
/// optionally an indented block of one or more option bodies.
pub open spec fn alternative_end(ts: Seq<Token>, end: ParserError, i: int) -> Result<
    int,
    ParserError,
> {
    if !ident_at(ts, i) {
        Err(failure_at(ts, end, i))
    } else if token_is(ts, i + 1, TokenKind::Indent) {
        if token_is(ts, i + 2, TokenKind::Deindent) {
            Err(failure_at(ts, end, i + 2))
        } else {
            options_end(ts, end, i + 2)
        }
    } else {
        Ok(i + 1)
    }
}

/// Where the declaration that starts at token `i` ends: `const`, `opt` or
/// `alt` followed by the body of that form.
pub open spec fn declaration_end(ts: Seq<Token>, end: ParserError, i: int) -> Result<
    int,
    ParserError,
> {
    if token_is(ts, i, TokenKind::Const) {
        constant_end(ts, end, i + 1)
    } else if token_is(ts, i, TokenKind::Opt) {
        option_end(ts, end, i + 1)
    } else if token_is(ts, i, TokenKind::Alt) {
        alternative_end(ts, end, i + 1)
    } else {
        Err(failure_at(ts, end, i))
    }
}

/// Where the declarations from token `p` to the end of the stream end.
pub open spec fn document_end(ts: Seq<Token>, end: ParserError, p: int) -> Result<int, ParserError>
    decreases ts.len() - p,
{
    if p >= ts.len() && end is EndOfTokenStream {
        Ok(p)
    } else {
        match declaration_end(ts, end, p) {
            Err(e) => Err(e),
            Ok(q) => if p < q <= ts.len() {
                document_end(ts, end, q)
            } else {
                Err(end)
            },
        }
    }
}

/// `c` is the constant body that starts at token `i`, its span starting at
/// token `start` (its keyword, if it has one).
pub open spec fn constant_matches(
    ts: Seq<Token>,
    end: ParserError,
    start: int,
    i: int,
    c: ConstantDeclaration,
) -> bool
    decreases c,
{
    &&& ident_at(ts, i)
    &&& c.name == ts[i].kind->Ident_0
    &&& constant_end(ts, end, i) is Ok
    &&& c.span == span_between(ts, start, constant_end(ts, end, i)->Ok_0)
    &&& match c.body {
        ConstantBody::Direct(e) => token_is(ts, i + 1, TokenKind::Assign) && expression_at(
            ts,
            end,
            1,
            i + 2,
        ) is Ok && e == expression_at(ts, end, 1, i + 2)->Ok_0.0,
        ConstantBody::Content(cs) => token_is(ts, i + 1, TokenKind::Indent) && constants_match(
            ts,
            end,
            i + 2,
            cs@,
        ),
    }
}

/// `cs` are the constant bodies of the block that starts at token `p`.
pub open spec fn constants_match(
    ts: Seq<Token>,
    end: ParserError,
    p: int,
    cs: Seq<ConstantDeclaration>,
) -> bool
    decreases cs,
{
    if cs.len() == 0 {
        token_is(ts, p, TokenKind::Deindent)
    } else {
        &&& !token_is(ts, p, TokenKind::Deindent)
        &&& constant_matches(ts, end, p, p, cs[0])
        &&& constants_match(ts, end, constant_end(ts, end, p)->Ok_0, cs.drop_first())
    }
}

/// `o` is the option body that starts at token `i`, its span starting at
/// token `start`.
pub open spec fn option_matches(
    ts: Seq<Token>,
    end: ParserError,
    start: int,
    i: int,
    o: OptionDeclaration,
) -> bool
    decreases o,
{
    &&& ident_at(ts, i)
    &&& o.name == ts[i].kind->Ident_0
    &&& option_end(ts, end, i) is Ok
    &&& o.span == span_between(ts, start, option_end(ts, end, i)->Ok_0)
    &&& if token_is(ts, i + 1, TokenKind::Indent) {
        fields_match(ts, end, i + 2, o.fields@)
    } else {
        o.fields@.len() == 0
    }
}

/// `f` is the option field that starts at token `p`.
pub open spec fn field_matches(ts: Seq<Token>, end: ParserError, p: int, f: OptionField) -> bool
    decreases f,
{
    if token_is(ts, p, TokenKind::Const) {
        f is Const && constant_matches(ts, end, p, p + 1, f->Const_0)
    } else {
        f is SubOption && option_matches(ts, end, p, p, f->SubOption_0)
    }
}

/// `fs` are the fields of the block that starts at token `p`.
pub open spec fn fields_match(ts: Seq<Token>, end: ParserError, p: int, fs: Seq<OptionField>) -> bool
    decreases fs,
{
    if fs.len() == 0 {
        token_is(ts, p, TokenKind::Deindent)
    } else {
        &&& !token_is(ts, p, TokenKind::Deindent)
        &&& field_matches(ts, end, p, fs[0])
        &&& fields_match(ts, end, field_end(ts, end, p)->Ok_0, fs.drop_first())
    }
}

/// `os` are the option bodies of the block that starts at token `p`.
pub open spec fn options_match(
    ts: Seq<Token>,
    end: ParserError,
    p: int,
    os: Seq<OptionDeclaration>,
) -> bool
    decreases os.len(),
{
    if os.len() == 0 {
        token_is(ts, p, TokenKind::Deindent)
    } else {
        &&& !token_is(ts, p, TokenKind::Deindent)
        &&& option_matches(ts, end, p, p, os[0])
        &&& options_match(ts, end, option_end(ts, end, p)->Ok_0, os.drop_first())
    }
}

/// `a` is the alternative body that starts at token `i`, its span starting
/// at token `start`.
pub open spec fn alternative_matches(
    ts: Seq<Token>,
    end: ParserError,
    start: int,
    i: int,
    a: AlternativeDeclaration,
) -> bool {
    &&& ident_at(ts, i)
    &&& a.name == ts[i].kind->Ident_0
    &&& alternative_end(ts, end, i) is Ok
    &&& a.span == span_between(ts, start, alternative_end(ts, end, i)->Ok_0)
    &&& if token_is(ts, i + 1, TokenKind::Indent) {
        options_match(ts, end, i + 2, a.alternatives@)
    } else {
        a.alternatives@.len() == 0
    }
}

/// `d` is the declaration that starts at token `i`.
pub open spec fn declaration_matches(ts: Seq<Token>, end: ParserError, i: int, d: Declaration) -> bool {
    if token_is(ts, i, TokenKind::Const) {
        d is Const && constant_matches(ts, end, i, i + 1, d->Const_0)
    } else if token_is(ts, i, TokenKind::Opt) {
        d is Opt && option_matches(ts, end, i, i + 1, d->Opt_0)
    } else {
        token_is(ts, i, TokenKind::Alt) && d is Alt && alternative_matches(ts, end, i, i + 1, d->Alt_0)
    }
}

/// `ds` are the declarations from token `p` to the end of the stream.
pub open spec fn declarations_match(
    ts: Seq<Token>,
    end: ParserError,
    p: int,
    ds: Seq<Declaration>,
) -> bool
    decreases ds.len(),
{
    if ds.len() == 0 {
        p >= ts.len() && end is EndOfTokenStream
    } else {
        &&& !(p >= ts.len() && end is EndOfTokenStream)
        &&& declaration_matches(ts, end, p, ds[0])
        &&& declarations_match(ts, end, declaration_end(ts, end, p)->Ok_0, ds.drop_first())
    }
}

/// Every node of the expression spans an ordered range inside the source `b`.
pub open spec fn expression_within(x: Expression, b: Seq<u8>) -> bool
    decreases x,
{
    &&& span_within(x.span, b)
    &&& match x.content {
        ExpressionEnum::Lit(_) => true,
        ExpressionEnum::Una(_, y) => expression_within(*y, b),
        ExpressionEnum::Bin(_, l, r) => expression_within(*l, b) && expression_within(*r, b),
    }
}

/// Every node of the constant spans an ordered range inside the source `b`.
pub open spec fn constant_within(c: ConstantDeclaration, b: Seq<u8>) -> bool
    decreases c,
{
    &&& span_within(c.span, b)
    &&& match c.body {
        ConstantBody::Direct(x) => expression_within(x, b),
        ConstantBody::Content(cs) => constants_within(cs@, b),
    }
}

pub open spec fn constants_within(cs: Seq<ConstantDeclaration>, b: Seq<u8>) -> bool
    decreases cs,
{
    cs.len() > 0 ==> constant_within(cs[0], b) && constants_within(cs.drop_first(), b)
}

/// Every node of the option spans an ordered range inside the source `b`.
pub open spec fn option_within(o: OptionDeclaration, b: Seq<u8>) -> bool
    decreases o,
{
    span_within(o.span, b) && fields_within(o.fields@, b)
}

pub open spec fn field_within(f: OptionField, b: Seq<u8>) -> bool
    decreases f,
{
    match f {
        OptionField::SubOption(o) => option_within(o, b),
        OptionField::Const(c) => constant_within(c, b),
        OptionField::Alt(a) => span_within(a.span, b) && options_within(a.alternatives@, b),
    }
}

pub open spec fn fields_within(fs: Seq<OptionField>, b: Seq<u8>) -> bool
    decreases fs,
{
    fs.len() > 0 ==> field_within(fs[0], b) && fields_within(fs.drop_first(), b)
}

pub open spec fn options_within(os: Seq<OptionDeclaration>, b: Seq<u8>) -> bool
    decreases os,
{
    os.len() > 0 ==> option_within(os[0], b) && options_within(os.drop_first(), b)
}

/// Every node of the declaration spans an ordered range inside the source `b`.
pub open spec fn declaration_within(d: Declaration, b: Seq<u8>) -> bool {
    match d {
        Declaration::Const(c) => constant_within(c, b),
        Declaration::Opt(o) => option_within(o, b),
        Declaration::Alt(a) => span_within(a.span, b) && options_within(a.alternatives@, b),
        Declaration::Choice(c) => span_within(c.span, b),
    }
}

/// The tokens lie inside the source `b`, in textual order.
pub open spec fn tokens_within(ts: Seq<Token>, b: Seq<u8>) -> bool {
    &&& forall|k: int| 0 <= k < ts.len() ==> span_within(#[trigger] ts[k].span, b)
    &&& forall|k: int, l: int|
        0 <= k < l < ts.len() ==> loc_le(#[trigger] ts[k].span.lo, #[trigger] ts[l].span.lo)
}

proof fn lemma_span_between_within(ts: Seq<Token>, b: Seq<u8>, i: int, j: int)
    requires
        tokens_within(ts, b),
        0 <= i < j <= ts.len(),
    ensures
        span_within(span_between(ts, i, j), b),
{
    assert(span_within(ts[j - 1].span, b));
    if i < j - 1 {
        assert(loc_le(ts[i].span.lo, ts[j - 1].span.lo));
    }
}

/// An expression read from tokens that lie inside the source lies inside it
/// too, and reading it moves forward.
pub proof fn lemma_expression_within(ts: Seq<Token>, end: ParserError, b: Seq<u8>, n: nat, i: int)
    requires
        tokens_within(ts, b),
        1 <= n <= 8,
        0 <= i,
    ensures
        expression_at(ts, end, n, i) is Ok ==> {
            let (x, j) = expression_at(ts, end, n, i)->Ok_0;
            &&& i < j <= ts.len()
            &&& expression_within(x, b)
        },
    decreases ts.len() - i, 9 - n,
{
    if n >= 8 {
        if 0 <= i < ts.len() {
            assert(span_within(ts[i].span, b));
            if ts[i].kind is LParen {
                lemma_expression_within(ts, end, b, 1, i + 1);
                if let Ok((x, j)) = expression_at(ts, end, 1, i + 1) {
                    if token_is(ts, j, TokenKind::RParen) {
                        lemma_span_between_within(ts, b, i, j + 1);
                    }
                }
            }
        }
    } else if n == 7 {
        if token_is(ts, i, TokenKind::Minus) {
            lemma_expression_within(ts, end, b, 7, i + 1);
            if let Ok((x, j)) = expression_at(ts, end, 7, i + 1) {
                lemma_span_between_within(ts, b, i, j);
            }
        } else if token_is(ts, i, TokenKind::Plus) {
            lemma_expression_within(ts, end, b, 7, i + 1);
        } else {
            lemma_expression_within(ts, end, b, 8, i);
        }
    } else {
        lemma_expression_within(ts, end, b, n + 1, i);
        if let Ok((lhs, j)) = expression_at(ts, end, n + 1, i) {
            if let Some(op) = level_operator(n, ts, j) {
                lemma_expression_within(ts, end, b, n, j + 1);
                if let Ok((rhs, k)) = expression_at(ts, end, n, j + 1) {
                    lemma_span_between_within(ts, b, i, k);
                }
            }
        }
    }
}

/// Reading an expression moves forward and stays inside the tokens.
proof fn lemma_expression_bounds(ts: Seq<Token>, end: ParserError, n: nat, i: int)
    requires
        1 <= n <= 8,
        0 <= i,
    ensures
        expression_at(ts, end, n, i) is Ok ==> i < expression_at(ts, end, n, i)->Ok_0.1 <= ts.len(),
    decreases ts.len() - i, 9 - n,
{
    if n >= 8 {
        if 0 <= i < ts.len() && ts[i].kind is LParen {
            lemma_expression_bounds(ts, end, 1, i + 1);
        }
    } else if n == 7 {
        if token_is(ts, i, TokenKind::Minus) || token_is(ts, i, TokenKind::Plus) {
            lemma_expression_bounds(ts, end, 7, i + 1);
        } else {
            lemma_expression_bounds(ts, end, 8, i);
        }
    } else {
        lemma_expression_bounds(ts, end, n + 1, i);
        if let Ok((lhs, j)) = expression_at(ts, end, n + 1, i) {
            if level_operator(n, ts, j) is Some {
                lemma_expression_bounds(ts, end, n, j + 1);
            }
        }
    }
}

pub(crate) proof fn lemma_constant_end_bounds(ts: Seq<Token>, end: ParserError, i: int)
    requires
        0 <= i,
    ensures
        constant_end(ts, end, i) is Ok ==> i < constant_end(ts, end, i)->Ok_0 <= ts.len(),
    decreases ts.len() - i, 0int,
{
    if ident_at(ts, i) {
        if token_is(ts, i + 1, TokenKind::Assign) {
            lemma_expression_bounds(ts, end, 1, i + 2);
        } else if token_is(ts, i + 1, TokenKind::Indent) {
            lemma_constants_end_bounds(ts, end, i + 2);
        }
    }
}

proof fn lemma_constants_end_bounds(ts: Seq<Token>, end: ParserError, p: int)
    requires
        0 <= p,
    ensures
        constants_end(ts, end, p) is Ok ==> p < constants_end(ts, end, p)->Ok_0 <= ts.len(),
    decreases ts.len() - p, 1int,
{
    if !token_is(ts, p, TokenKind::Deindent) {
        lemma_constant_end_bounds(ts, end, p);
        if let Ok(q) = constant_end(ts, end, p) {
            if p < q <= ts.len() {
                lemma_constants_end_bounds(ts, end, q);
            }
        }
    }
}

pub(crate) proof fn lemma_option_end_bounds(ts: Seq<Token>, end: ParserError, i: int)
    requires
        0 <= i,
    ensures
        option_end(ts, end, i) is Ok ==> i < option_end(ts, end, i)->Ok_0 <= ts.len(),
    decreases ts.len() - i, 0int,
{
    if ident_at(ts, i) && token_is(ts, i + 1, TokenKind::Indent) {
        lemma_fields_end_bounds(ts, end, i + 2);
    }
}

pub(crate) proof fn lemma_field_end_bounds(ts: Seq<Token>, end: ParserError, p: int)
    requires
        0 <= p,
    ensures
        field_end(ts, end, p) is Ok ==> p < field_end(ts, end, p)->Ok_0 <= ts.len(),
    decreases ts.len() - p, 1int,
{
    if token_is(ts, p, TokenKind::Const) {
        lemma_constant_end_bounds(ts, end, p + 1);
    } else {
        lemma_option_end_bounds(ts, end, p);
    }
}

proof fn lemma_fields_end_bounds(ts: Seq<Token>, end: ParserError, p: int)
    requires
        0 <= p,
    ensures
        fields_end(ts, end, p) is Ok ==> p < fields_end(ts, end, p)->Ok_0 <= ts.len(),
    decreases ts.len() - p, 2int,
{
    if !token_is(ts, p, TokenKind::Deindent) {
        lemma_field_end_bounds(ts, end, p);
        if let Ok(q) = field_end(ts, end, p) {
            if p < q <= ts.len() {
                lemma_fields_end_bounds(ts, end, q);
            }
        }
    }
}

pub(crate) proof fn lemma_options_end_bounds(ts: Seq<Token>, end: ParserError, p: int)
    requires
        0 <= p,
    ensures
        options_end(ts, end, p) is Ok ==> p < options_end(ts, end, p)->Ok_0 <= ts.len(),
    decreases ts.len() - p,
{
    if !token_is(ts, p, TokenKind::Deindent) {
        lemma_option_end_bounds(ts, end, p);
        if let Ok(q) = option_end(ts, end, p) {
            if p < q <= ts.len() {
                lemma_options_end_bounds(ts, end, q);
            }
        }
    }
}

proof fn lemma_constant_within(
    ts: Seq<Token>,
    end: ParserError,
    b: Seq<u8>,
    start: int,
    i: int,
    c: ConstantDeclaration,
)
    requires
        tokens_within(ts, b),
        0 <= start <= i,
        constant_matches(ts, end, start, i, c),
    ensures
        constant_within(c, b),
    decreases c,
{
    lemma_constant_end_bounds(ts, end, i);
    lemma_span_between_within(ts, b, start, constant_end(ts, end, i)->Ok_0);
    match c.body {
        ConstantBody::Direct(x) => {
            lemma_expression_within(ts, end, b, 1, i + 2);
        },
        ConstantBody::Content(cs) => {
            lemma_constants_within(ts, end, b, i + 2, cs@);
        },
    }
}

proof fn lemma_constants_within(
    ts: Seq<Token>,
    end: ParserError,
    b: Seq<u8>,
    p: int,
    cs: Seq<ConstantDeclaration>,
)
    requires
        tokens_within(ts, b),
        0 <= p,
        constants_match(ts, end, p, cs),
    ensures
        constants_within(cs, b),
    decreases cs,
{
    if cs.len() > 0 {
        assert(constant_matches(ts, end, p, p, cs[0]));
        lemma_constant_within(ts, end, b, p, p, cs[0]);
        lemma_constant_end_bounds(ts, end, p);
        lemma_constants_within(ts, end, b, constant_end(ts, end, p)->Ok_0, cs.drop_first());
    }
}

proof fn lemma_option_within(
    ts: Seq<Token>,
    end: ParserError,
    b: Seq<u8>,
    start: int,
    i: int,
    o: OptionDeclaration,
)
    requires
        tokens_within(ts, b),
        0 <= start <= i,
        option_matches(ts, end, start, i, o),
    ensures
        option_within(o, b),
    decreases o,
{
    lemma_option_end_bounds(ts, end, i);
    lemma_span_between_within(ts, b, start, option_end(ts, end, i)->Ok_0);
    if token_is(ts, i + 1, TokenKind::Indent) {
        lemma_fields_within(ts, end, b, i + 2, o.fields@);
    }
}

proof fn lemma_field_within(ts: Seq<Token>, end: ParserError, b: Seq<u8>, p: int, f: OptionField)
    requires
        tokens_within(ts, b),
        0 <= p,
        field_matches(ts, end, p, f),
    ensures
        field_within(f, b),
    decreases f,
{
    if token_is(ts, p, TokenKind::Const) {
        lemma_constant_within(ts, end, b, p, p + 1, f->Const_0);
    } else {
        lemma_option_within(ts, end, b, p, p, f->SubOption_0);
    }
}

proof fn lemma_fields_within(
    ts: Seq<Token>,
    end: ParserError,
    b: Seq<u8>,
    p: int,
    fs: Seq<OptionField>,
)
    requires
        tokens_within(ts, b),
        0 <= p,
        fields_match(ts, end, p, fs),
    ensures
        fields_within(fs, b),
    decreases fs,
{
    if fs.len() > 0 {
        lemma_field_within(ts, end, b, p, fs[0]);
        lemma_field_end_bounds(ts, end, p);
        assert(field_matches(ts, end, p, fs[0]));
        if token_is(ts, p, TokenKind::Const) {
            assert(constant_matches(ts, end, p, p + 1, fs[0]->Const_0));
        } else {
            assert(option_matches(ts, end, p, p, fs[0]->SubOption_0));
        }
        lemma_fields_within(ts, end, b, field_end(ts, end, p)->Ok_0, fs.drop_first());
    }
}

proof fn lemma_options_within(
    ts: Seq<Token>,
    end: ParserError,
    b: Seq<u8>,
    p: int,
    os: Seq<OptionDeclaration>,
)
    requires
        tokens_within(ts, b),
        0 <= p,
        options_match(ts, end, p, os),
    ensures
        options_within(os, b),
    decreases os.len(),
{
    if os.len() > 0 {
        lemma_option_within(ts, end, b, p, p, os[0]);
        lemma_option_end_bounds(ts, end, p);
        lemma_options_within(ts, end, b, option_end(ts, end, p)->Ok_0, os.drop_first());
    }
}

/// A declaration read from tokens that lie inside the source lies inside it too.
pub proof fn lemma_declaration_within(ts: Seq<Token>, end: ParserError, b: Seq<u8>, p: int, d: Declaration)
    requires
        tokens_within(ts, b),
        0 <= p,
        declaration_matches(ts, end, p, d),
    ensures
        declaration_within(d, b),
{
    if token_is(ts, p, TokenKind::Const) {
        assert(constant_matches(ts, end, p, p + 1, d->Const_0));
        lemma_constant_within(ts, end, b, p, p + 1, d->Const_0);
    } else if token_is(ts, p, TokenKind::Opt) {
        assert(option_matches(ts, end, p, p + 1, d->Opt_0));
        lemma_option_within(ts, end, b, p, p + 1, d->Opt_0);
    } else {
        let a = d->Alt_0;
        lemma_options_end_bounds(ts, end, p + 3);
        if token_is(ts, p + 2, TokenKind::Indent) {
            lemma_options_within(ts, end, b, p + 3, a.alternatives@);
        }
        lemma_span_between_within(ts, b, p, alternative_end(ts, end, p + 1)->Ok_0);
    }
}

/// Declarations read from tokens that lie inside the source lie inside it too.
pub proof fn lemma_declarations_within(
    ts: Seq<Token>,
    end: ParserError,
    b: Seq<u8>,
    p: int,
    ds: Seq<Declaration>,
)
    requires
        tokens_within(ts, b),
        0 <= p,
        declarations_match(ts, end, p, ds),
    ensures
        declarations_within(ds, b),
    decreases ds.len(),
{
    if ds.len() > 0 {
        let d = ds[0];
        assert(declaration_matches(ts, end, p, d));
        if token_is(ts, p, TokenKind::Const) {
            assert(constant_matches(ts, end, p, p + 1, d->Const_0));
            lemma_constant_within(ts, end, b, p, p + 1, d->Const_0);
            lemma_constant_end_bounds(ts, end, p + 1);
        } else if token_is(ts, p, TokenKind::Opt) {
            assert(option_matches(ts, end, p, p + 1, d->Opt_0));
            lemma_option_within(ts, end, b, p, p + 1, d->Opt_0);
            lemma_option_end_bounds(ts, end, p + 1);
        } else {
            let a = d->Alt_0;
            lemma_options_end_bounds(ts, end, p + 3);
            if token_is(ts, p + 2, TokenKind::Indent) {
                lemma_options_within(ts, end, b, p + 3, a.alternatives@);
            }
            lemma_span_between_within(ts, b, p, alternative_end(ts, end, p + 1)->Ok_0);
            assert(alternative_end(ts, end, p + 1) is Ok);
        }
        assert(declaration_end(ts, end, p) is Ok);
        lemma_declarations_within(ts, end, b, declaration_end(ts, end, p)->Ok_0, ds.drop_first());
    }
}

/// `ts` followed by `end` is a layout-aware token stream of the source `b`:
/// layout tokens and tokens of lexemes of the source, inside it, in textual
/// order, ended by the end of the input or by an indentation error, every
/// block it opens closed after it opens and, when the input ends, closed. Its
/// lexeme tokens are those of the lexemes that the stream keeps, in order:
/// all of them when the input ends, the first few when an indentation error
/// ends the stream.
pub open spec fn layout_stream(b: Seq<u8>, ts: Seq<Token>, end: ParserError) -> bool {
    &&& tokens_within(ts, b)
    &&& forall|k: int|
        0 <= k < ts.len() ==> visible_kind(#[trigger] ts[k].kind) && layout_token(ts[k], b)
    &&& (end is EndOfTokenStream || end is Indentation)
    &&& layout_nested(ts)
    &&& end is EndOfTokenStream ==> layout_balance(ts) == 0
    &&& exists|kept: Seq<int>|
        {
            &&& raw_positions(ts, b, kept)
            &&& kept.len() <= kept_lexemes(b, 0).len()
            &&& kept == kept_lexemes(b, 0).subrange(0, kept.len() as int)
            &&& end is EndOfTokenStream ==> kept == kept_lexemes(b, 0)
        }
}

/// The first of a run of declarations ends after it starts.
pub(crate) proof fn lemma_declarations_within_bounds(
    ts: Seq<Token>,
    end: ParserError,
    p: int,
    ds: Seq<Declaration>,
)
    requires
        0 <= p,
        ds.len() > 0,
        declarations_match(ts, end, p, ds),
    ensures
        declaration_end(ts, end, p) is Ok,
        p < declaration_end(ts, end, p)->Ok_0 <= ts.len(),
{
    let d = ds[0];
    assert(declaration_matches(ts, end, p, d));
    lemma_constant_end_bounds(ts, end, p + 1);
    lemma_option_end_bounds(ts, end, p + 1);
    lemma_options_end_bounds(ts, end, p + 3);
    if token_is(ts, p, TokenKind::Const) {
        assert(constant_matches(ts, end, p, p + 1, d->Const_0));
    } else if token_is(ts, p, TokenKind::Opt) {
        assert(option_matches(ts, end, p, p + 1, d->Opt_0));
    } else {
        assert(alternative_matches(ts, end, p, p + 1, d->Alt_0));
    }
}

/// `ts` followed by `end` is exactly the layout-aware token stream of `b`
/// and what ends it (`layout`): each token is the element in its place.
pub open spec fn stream_matches(b: Seq<u8>, ts: Seq<Token>, end: ParserError) -> bool {
    &&& ts.len() == layout(b).0.len()
    &&& forall|k: int| 0 <= k < ts.len() ==> item_matches(#[trigger] ts[k], layout(b).0[k], b)
    &&& end == layout(b).1
}

/// `Indent` tokens minus `Deindent` tokens in `ts`.
pub open spec fn layout_balance(ts: Seq<Token>) -> int
    decreases ts.len(),
{
    if ts.len() == 0 {
        0
    } else {
        layout_balance(ts.drop_last()) + if ts.last().kind is Indent {
            1int
        } else if ts.last().kind is Deindent {
            -1int
        } else {
            0int
        }
    }
}

/// Every block that the tokens open is closed after it is opened: no prefix
/// closes more blocks than it opens.
pub open spec fn layout_nested(ts: Seq<Token>) -> bool {
    forall|k: int| 0 <= k <= ts.len() ==> #[trigger] layout_balance(ts.subrange(0, k)) >= 0
}

/// The tokens of `ts` that are not `Indent` or `Deindent` are, in order, the
/// tokens of the lexemes of `b` that start at the indices `kept`.
pub open spec fn raw_positions(ts: Seq<Token>, b: Seq<u8>, kept: Seq<int>) -> bool
    decreases ts.len(),
{
    if ts.len() == 0 {
        kept.len() == 0
    } else if ts.last().kind is Indent || ts.last().kind is Deindent {
        raw_positions(ts.drop_last(), b, kept)
    } else {
        &&& kept.len() > 0
        &&& raw_token_at(ts.last(), b, kept.last())
        &&& raw_positions(ts.drop_last(), b, kept.drop_last())
    }
}

/// Every declaration of `ds` lies inside the source `b`.
pub open spec fn declarations_within(ds: Seq<Declaration>, b: Seq<u8>) -> bool
    decreases ds.len(),
{
    ds.len() > 0 ==> declaration_within(ds[0], b) && declarations_within(ds.drop_first(), b)
}

/// Reads the declarations of a source text.
pub struct Parser {
    tokens: Vec<Token>,
    end: ParserError,
    position: usize,
    source: Ghost<Seq<u8>>,
    /// Start indices of the lexemes behind the tokens that are not layout.
    kept: Ghost<Seq<int>>,
}

impl Parser {
    /// The layout-aware tokens of the input, in order.
    pub closed spec fn tokens(&self) -> Seq<Token> {
        self.tokens@
    }

    /// What ended the token stream: its end, or an indentation error.
    pub closed spec fn end(&self) -> ParserError {
        self.end
    }

    /// Index of the next token to read.
    pub closed spec fn pos(&self) -> int {
        self.position as int
    }

    /// The input, as bytes.
    pub closed spec fn source(&self) -> Seq<u8> {
        self.source@
    }

    pub closed spec fn wf(&self) -> bool {
        &&& self.position <= self.tokens@.len()
        &&& self.tokens@.len() <= usize::MAX
        &&& self.end is EndOfTokenStream || self.end is Indentation
        &&& forall|k: int|
            0 <= k < self.tokens@.len() ==> visible_kind(#[trigger] self.tokens@[k].kind)
                && span_within(self.tokens@[k].span, self.source@) && layout_token(
                self.tokens@[k],
                self.source@,
            )
        &&& forall|k: int, l: int|
            0 <= k < l < self.tokens@.len() ==> loc_le(
                #[trigger] self.tokens@[k].span.lo,
                #[trigger] self.tokens@[l].span.lo,
            )
        &&& raw_positions(self.tokens@, self.source@, self.kept@)
        &&& self.kept@.len() <= kept_lexemes(self.source@, 0).len()
        &&& self.kept@ == kept_lexemes(self.source@, 0).subrange(0, self.kept@.len() as int)
        &&& self.end is EndOfTokenStream ==> self.kept@ == kept_lexemes(self.source@, 0)
        &&& layout_nested(self.tokens@)
        &&& self.end is EndOfTokenStream ==> layout_balance(self.tokens@) == 0
    }

    /// Reads the whole token stream of `s` up to its end or its first error.
    pub fn new(s: &str) -> (r: Result<Parser, ParserError>)
        requires
            lexable(s.spec_bytes()),
        ensures
            r is Ok,
            r->Ok_0.wf(),
            r->Ok_0.pos() == 0,
            r->Ok_0.source() == s.spec_bytes(),
            layout_stream(s.spec_bytes(), r->Ok_0.tokens(), r->Ok_0.end()),
            stream_matches(s.spec_bytes(), r->Ok_0.tokens(), r->Ok_0.end()),
    {
        let mut lexer = IndentLexer::new(s);
        let mut tokens: Vec<Token> = Vec::new();
        let mut end = ParserError::new_end_of_token_stream(SourceLocation { row: 0, column: 0 });
        let ghost b = s.spec_bytes();
        let ghost mut kept: Seq<int> = Seq::empty();
        let ghost mut done: Seq<Layout> = Seq::empty();
        proof {
            lemma_skippable_keeps_nothing(b, 0, lexer.start_index());
        }
        loop
            invariant_except_break
                done + lexer.stream().0 == layout(b).0,
                lexer.stream().1 == layout(b).1,
            invariant
                lexer.wf(),
                lexer.source() == s.spec_bytes(),
                forall|k: int|
                    0 <= k < tokens@.len() ==> visible_kind(#[trigger] tokens@[k].kind)
                        && span_within(tokens@[k].span, s.spec_bytes()) && layout_token(
                        tokens@[k],
                        s.spec_bytes(),
                    ),
                forall|k: int, l: int|
                    0 <= k < l < tokens@.len() ==> loc_le(
                        #[trigger] tokens@[k].span.lo,
                        #[trigger] tokens@[l].span.lo,
                    ),
                forall|k: int|
                    0 <= k < tokens@.len() ==> loc_le(
                        #[trigger] tokens@[k].span.lo,
                        lexer.last_location(),
                    ),
                b == s.spec_bytes(),
                0 <= lexer.start_index(),
                raw_positions(tokens@, b, kept),
                kept + kept_lexemes(b, lexer.start_index()) == kept_lexemes(b, 0),
                layout_nested(tokens@),
                layout_balance(tokens@) == lexer.depth(),
                lexer.depth() >= 0,
                !lexer.queued_indent(),
                tokens@.len() == done.len(),
                forall|k: int| 0 <= k < tokens@.len() ==> item_matches(#[trigger] tokens@[k], done[k], b),
            ensures
                stream_matches(b, tokens@, end),
                layout_nested(tokens@),
                end is EndOfTokenStream ==> layout_balance(tokens@) == 0,
                end is EndOfTokenStream || end is Indentation,
                raw_positions(tokens@, b, kept),
                kept + kept_lexemes(b, lexer.start_index()) == kept_lexemes(b, 0),
                end is EndOfTokenStream ==> kept == kept_lexemes(b, 0),
            decreases lexer.work(),
        {
            let ghost before = lexer.start_index();
            let ghost old_tokens = tokens@;
            let ghost old_kept = kept;
            let ghost old_stream = lexer.stream();
            match lexer.next_token() {
                Ok(t) => {
                    proof {
                        if !(t.kind is Indent || t.kind is Deindent) {
                            let i = lexer.emitted_index();
                            assert(0 <= i < b.len() && raw_token_at(t, b, i));
                            crate::lexer::lemma_lexeme_end_advances(b, i);
                            lemma_skippable_keeps_nothing(b, before, i);
                            lemma_skippable_keeps_nothing(b, lexeme_end(b, i), lexer.start_index());
                            assert(!(is_space(b[i]) || b[i] == 10u8 || b[i] == 35u8));
                            assert(kept_lexemes(b, i) == seq![i] + kept_lexemes(b, lexeme_end(b, i)));
                            assert(kept.push(i) + kept_lexemes(b, lexer.start_index()) =~= kept
                                + kept_lexemes(b, before));
                            kept = kept.push(i);
                        } else {
                            lemma_skippable_keeps_nothing(b, before, lexer.start_index());
                        }
                    }
                    tokens.push(t);
                    proof {
                        let it = old_stream.0[0];
                        assert(done.push(it) + lexer.stream().0 =~= done + old_stream.0);
                        done = done.push(it);
                        assert forall|k: int| 0 <= k < tokens@.len() implies item_matches(
                            #[trigger] tokens@[k],
                            done[k],
                            b,
                        ) by {
                            if k < old_tokens.len() {
                                assert(tokens@[k] == old_tokens[k]);
                            }
                        }
                        assert(tokens@.drop_last() =~= old_tokens);
                        assert(tokens@.last() == t);
                        assert forall|k: int| 0 <= k <= tokens@.len() implies #[trigger] layout_balance(
                            tokens@.subrange(0, k),
                        ) >= 0 by {
                            if k < tokens@.len() {
                                assert(tokens@.subrange(0, k) =~= old_tokens.subrange(0, k));
                            } else {
                                assert(tokens@.subrange(0, k) =~= tokens@);
                            }
                        }
                        if !(t.kind is Indent || t.kind is Deindent) {
                            assert(kept.drop_last() =~= old_kept);
                            assert(raw_token_at(tokens@.last(), b, kept.last()));
                        }
                    }
                },
                Err(e) => {
                    proof {
                        assert(done =~= layout(b).0);
                        if e is Indentation {
                            lemma_skippable_keeps_nothing(b, before, lexer.start_index());
                        } else {
                            lemma_skippable_keeps_nothing(b, before, b.len() as int);
                            assert(kept =~= kept + kept_lexemes(b, b.len() as int));
                        }
                    }
                    end = e;
                    break ;
                },
            }
        }
        // Reading the length tells the verifier that it fits in a `usize`.
        let _count = tokens.len();
        proof {
            assert(kept =~= kept_lexemes(b, 0).subrange(0, kept.len() as int));
        }
        let parser = Parser { tokens, end, position: 0, source: Ghost(b), kept: Ghost(kept) };
        proof {
            let ts = parser.tokens@;
            assert forall|k: int| 0 <= k < ts.len() implies span_within(#[trigger] ts[k].span, b) by {
                assert(visible_kind(ts[k].kind));
            }
            assert forall|k: int| 0 <= k < ts.len() implies visible_kind(#[trigger] ts[k].kind)
                && layout_token(ts[k], b) by {
                assert(visible_kind(ts[k].kind));
            }
            assert(tokens_within(ts, b));
        }
        Ok(parser)
    }

    /// Reads all the declarations of `s`: the document is accepted exactly
    /// when the layout-aware token stream of `s` (`layout`, matched token by
    /// token) is a sequence of declarations, and then holds them in order;
    /// otherwise the error is the first one met.
    #[verifier::rlimit(50)]
    pub fn parse(s: &str) -> (r: Result<Document, ParserError>)
        requires
            lexable(s.spec_bytes()),
        ensures
            r is Ok ==> declarations_within(r->Ok_0.entries@, s.spec_bytes()),
            exists|ts: Seq<Token>, end: ParserError|
                {
                    &&& stream_matches(s.spec_bytes(), ts, end)
                    &&& layout_stream(s.spec_bytes(), ts, end)
                    &&& r is Ok <==> document_end(ts, end, 0) is Ok
                    &&& r is Ok ==> declarations_match(ts, end, 0, r->Ok_0.entries@)
                    &&& r is Err ==> document_end(ts, end, 0) == Err::<int, ParserError>(r->Err_0)
                },
    {
        let mut parser = match Parser::new(s) {
            Ok(p) => p,
            Err(err) => {
                return Err(err);
            },
        };
        let ghost ts = parser.tokens@;
        let ghost end = parser.end;
        let r = parser.parse_document();
        proof {
            if let Ok(d) = &r {
                lemma_declarations_within(ts, end, s.spec_bytes(), 0, d.entries@);
            }
        }
        r
    }

    /// What the parser reports when the token at index `i` does not fit.
    fn failure(&self, i: usize) -> (r: ParserError)
        ensures
            r == failure_at(self.tokens@, self.end, i as int),
    {
        if i < self.tokens.len() {
            ParserError::new_unexpected_token(self.tokens[i].duplicate())
        } else {
            self.end.duplicate()
        }
    }

    /// The expression of precedence level `n` that starts at token `i`.
    fn parse_level(&self, n: u8, i: usize) -> (r: Result<(Expression, usize), ParserError>)
        requires
            self.wf(),
            1 <= n <= 8,
            i <= self.tokens@.len(),
        ensures
            r is Ok ==> expression_at(self.tokens@, self.end, n as nat, i as int) == Ok::<(Expression, int), ParserError>(
                (r->Ok_0.0, r->Ok_0.1 as int),
            ) && i < r->Ok_0.1 <= self.tokens@.len(),
            r is Err ==> expression_at(self.tokens@, self.end, n as nat, i as int) == Err::<(Expression, int), ParserError>(
                r->Err_0,
            ),
        decreases self.tokens@.len() - i, 9 - n,
    {
        let len = self.tokens.len();
        if n >= 8 {
            if i >= len {
                return Err(self.end.duplicate());
            }
            let t = &self.tokens[i];
            match &t.kind {
                TokenKind::Ident(s) => Ok((Expression::ident(s.clone(), t.span), i + 1)),
                TokenKind::Integer(v) => Ok((Expression::integer(*v, t.span), i + 1)),
                TokenKind::LParen => match self.parse_level(1, i + 1) {
                    Err(e) => Err(e),
                    Ok((inner, j)) => {
                        if j < len && matches!(self.tokens[j].kind, TokenKind::RParen) {
                            let mut x = inner;
                            x.set_span(Span { lo: t.span.lo, hi: self.tokens[j].span.hi });
                            Ok((x, j + 1))
                        } else {
                            Err(self.failure(j))
                        }
                    },
                },
                _ => Err(self.failure(i)),
            }
        } else if n == 7 {
            if i < len && matches!(self.tokens[i].kind, TokenKind::Minus) {
                match self.parse_level(7, i + 1) {
                    Err(e) => Err(e),
                    Ok((x, j)) => {
                        let span = Span { lo: self.tokens[i].span.lo, hi: self.tokens[j - 1].span.hi };
                        Ok((Expression::neg(x, span), j))
                    },
                }
            } else if i < len && matches!(self.tokens[i].kind, TokenKind::Plus) {
                self.parse_level(7, i + 1)
            } else {
                self.parse_level(8, i)
            }
        } else {
            match self.parse_level(n + 1, i) {
                Err(e) => Err(e),
                Ok((lhs, j)) => match self.operator(n, j) {
                    None => Ok((lhs, j)),
                    Some(op) => match self.parse_level(n, j + 1) {
                        Err(e) => Err(e),
                        Ok((rhs, k)) => {
                            let span = Span { lo: self.tokens[i].span.lo, hi: self.tokens[k - 1].span.hi };
                            Ok((Expression::new_bin(op, lhs, rhs, span), k))
                        },
                    },
                },
            }
        }
    }

    /// The operator of precedence level `n` at token `i`, if there is one there.
    fn operator(&self, n: u8, i: usize) -> (r: Option<BinaryExpressionKind>)
        ensures
            r == level_operator(n as nat, self.tokens@, i as int),
    {
        if i >= self.tokens.len() {
            return None;
        }
        match self.tokens[i].kind {
            TokenKind::Or if n == 1 => Some(BinaryExpressionKind::Or),
            TokenKind::And if n == 2 => Some(BinaryExpressionKind::And),
            TokenKind::Equals if n == 3 => Some(BinaryExpressionKind::Equal),
            TokenKind::Different if n == 3 => Some(BinaryExpressionKind::Different),
            TokenKind::Less if n == 4 => Some(BinaryExpressionKind::Less),
            TokenKind::LessEqual if n == 4 => Some(BinaryExpressionKind::LessEqual),
            TokenKind::Greater if n == 4 => Some(BinaryExpressionKind::Greater),
            TokenKind::GreaterEqual if n == 4 => Some(BinaryExpressionKind::GreaterEqual),
            TokenKind::Plus if n == 5 => Some(BinaryExpressionKind::Add),
            TokenKind::Minus if n == 5 => Some(BinaryExpressionKind::Sub),
            TokenKind::Star if n == 6 => Some(BinaryExpressionKind::Mult),
            TokenKind::Slash if n == 6 => Some(BinaryExpressionKind::Div),
            _ => None,
        }
    }

    /// The name at token `i`.
    fn name_at(&self, i: usize) -> (r: Result<String, ParserError>)
        ensures
            r is Ok <==> ident_at(self.tokens@, i as int),
            r is Ok ==> r->Ok_0 == self.tokens@[i as int].kind->Ident_0,
            r is Err ==> r->Err_0 == failure_at(self.tokens@, self.end, i as int),
    {
        if i < self.tokens.len() {
            match &self.tokens[i].kind {
                TokenKind::Ident(s) => {
                    return Ok(s.clone());
                },
                _ => {},
            }
        }
        Err(self.failure(i))
    }

    /// The token at `i` exists and has the kind that `want` picks.
    fn kind_is(&self, i: usize, want: u8) -> (r: bool)
        ensures
            r == (0 <= i < self.tokens@.len() && match self.tokens@[i as int].kind {
                TokenKind::Assign => want == 0,
                TokenKind::Indent => want == 1,
                TokenKind::Deindent => want == 2,
                TokenKind::Const => want == 3,
                TokenKind::Opt => want == 4,
                TokenKind::Alt => want == 5,
                _ => false,
            }),
    {
        if i >= self.tokens.len() {
            return false;
        }
        match self.tokens[i].kind {
            TokenKind::Assign => want == 0,
            TokenKind::Indent => want == 1,
            TokenKind::Deindent => want == 2,
            TokenKind::Const => want == 3,
            TokenKind::Opt => want == 4,
            TokenKind::Alt => want == 5,
            _ => false,
        }
    }

    /// The span from the start of token `i` to the end of token `j - 1`.
    fn span_of_tokens(&self, i: usize, j: usize) -> (r: Span)
        requires
            i < j <= self.tokens@.len(),
        ensures
            r == span_between(self.tokens@, i as int, j as int),
    {
        Span { lo: self.tokens[i].span.lo, hi: self.tokens[j - 1].span.hi }
    }

    /// The constant body that starts at token `i`, spanned from token `start`.
    fn constant_at(&self, start: usize, i: usize) -> (r: Result<(ConstantDeclaration, usize), ParserError>)
        requires
            self.wf(),
            start <= i <= self.tokens@.len(),
        ensures
            r is Ok ==> constant_end(self.tokens@, self.end, i as int) == Ok::<int, ParserError>(
                r->Ok_0.1 as int,
            ) && constant_matches(self.tokens@, self.end, start as int, i as int, r->Ok_0.0) && i
                < r->Ok_0.1 <= self.tokens@.len(),
            r is Err ==> constant_end(self.tokens@, self.end, i as int) == Err::<int, ParserError>(
                r->Err_0,
            ),
        decreases self.tokens@.len() - i, 0int,
    {
        let name = match self.name_at(i) {
            Ok(n) => n,
            Err(e) => {
                return Err(e);
            },
        };
        if self.kind_is(i + 1, 0) {
            match self.parse_level(1, i + 2) {
                Err(e) => Err(e),
                Ok((e, j)) => {
                    let span = self.span_of_tokens(start, j);
                    Ok((ConstantDeclaration::new_direct(name, e, span), j))
                },
            }
        } else if self.kind_is(i + 1, 1) {
            if self.kind_is(i + 2, 2) {
                return Err(self.failure(i + 2));
            }
            match self.constants_at(i + 2) {
                Err(e) => Err(e),
                Ok((cs, j)) => {
                    let span = self.span_of_tokens(start, j);
                    Ok((ConstantDeclaration { name, body: ConstantBody::Content(cs), span }, j))
                },
            }
        } else {
            Err(self.failure(i + 1))
        }
    }

    /// The block of constant bodies that starts at token `p`.
    fn constants_at(&self, p: usize) -> (r: Result<(Vec<ConstantDeclaration>, usize), ParserError>)
        requires
            self.wf(),
            p <= self.tokens@.len(),
        ensures
            r is Ok ==> constants_end(self.tokens@, self.end, p as int) == Ok::<int, ParserError>(
                r->Ok_0.1 as int,
            ) && constants_match(self.tokens@, self.end, p as int, r->Ok_0.0@) && p < r->Ok_0.1
                <= self.tokens@.len(),
            r is Err ==> constants_end(self.tokens@, self.end, p as int) == Err::<int, ParserError>(
                r->Err_0,
            ),
        decreases self.tokens@.len() - p, 1int,
    {
        if self.kind_is(p, 2) {
            return Ok((Vec::new(), p + 1));
        }
        match self.constant_at(p, p) {
            Err(e) => Err(e),
            Ok((c, q)) => match self.constants_at(q) {
                Err(e) => Err(e),
                Ok((rest, k)) => {
                    let ghost tail = rest@;
                    let mut all = rest;
                    all.insert(0, c);
                    assert(all@.drop_first() =~= tail);
                    Ok((all, k))
                },
            },
        }
    }

    /// The option body that starts at token `i`, spanned from token `start`.
    fn option_at(&self, start: usize, i: usize) -> (r: Result<(OptionDeclaration, usize), ParserError>)
        requires
            self.wf(),
            start <= i <= self.tokens@.len(),
        ensures
            r is Ok ==> option_end(self.tokens@, self.end, i as int) == Ok::<int, ParserError>(
                r->Ok_0.1 as int,
            ) && option_matches(self.tokens@, self.end, start as int, i as int, r->Ok_0.0) && i
                < r->Ok_0.1 <= self.tokens@.len(),
            r is Err ==> option_end(self.tokens@, self.end, i as int) == Err::<int, ParserError>(
                r->Err_0,
            ),
        decreases self.tokens@.len() - i, 0int,
    {
        let name = match self.name_at(i) {
            Ok(n) => n,
            Err(e) => {
                return Err(e);
            },
        };
        if self.kind_is(i + 1, 1) {
            if self.kind_is(i + 2, 2) {
                return Err(self.failure(i + 2));
            }
            match self.fields_at(i + 2) {
                Err(e) => Err(e),
                Ok((fields, j)) => {
                    let span = self.span_of_tokens(start, j);
                    Ok((OptionDeclaration { name, fields, span }, j))
                },
            }
        } else {
            let span = self.span_of_tokens(start, i + 1);
            Ok((OptionDeclaration::new(name, span), i + 1))
        }
    }

    /// The option field that starts at token `p`.
    fn field_at(&self, p: usize) -> (r: Result<(OptionField, usize), ParserError>)
        requires
            self.wf(),
            p <= self.tokens@.len(),
        ensures
            r is Ok ==> field_end(self.tokens@, self.end, p as int) == Ok::<int, ParserError>(
                r->Ok_0.1 as int,
            ) && field_matches(self.tokens@, self.end, p as int, r->Ok_0.0) && p < r->Ok_0.1
                <= self.tokens@.len(),
            r is Err ==> field_end(self.tokens@, self.end, p as int) == Err::<int, ParserError>(
                r->Err_0,
            ),
        decreases self.tokens@.len() - p, 1int,
    {
        if self.kind_is(p, 3) {
            match self.constant_at(p, p + 1) {
                Err(e) => Err(e),
                Ok((c, q)) => Ok((OptionField::Const(c), q)),
            }
        } else {
            match self.option_at(p, p) {
                Err(e) => Err(e),
                Ok((o, q)) => Ok((OptionField::SubOption(o), q)),
            }
        }
    }

    /// The block of option fields that starts at token `p`.
    fn fields_at(&self, p: usize) -> (r: Result<(Vec<OptionField>, usize), ParserError>)
        requires
            self.wf(),
            p <= self.tokens@.len(),
        ensures
            r is Ok ==> fields_end(self.tokens@, self.end, p as int) == Ok::<int, ParserError>(
                r->Ok_0.1 as int,
            ) && fields_match(self.tokens@, self.end, p as int, r->Ok_0.0@) && p < r->Ok_0.1
                <= self.tokens@.len(),
            r is Err ==> fields_end(self.tokens@, self.end, p as int) == Err::<int, ParserError>(
                r->Err_0,
            ),
        decreases self.tokens@.len() - p, 2int,
    {
        if self.kind_is(p, 2) {
            return Ok((Vec::new(), p + 1));
        }
        match self.field_at(p) {
            Err(e) => Err(e),
            Ok((f, q)) => match self.fields_at(q) {
                Err(e) => Err(e),
                Ok((rest, k)) => {
                    let ghost tail = rest@;
                    let mut all = rest;
                    all.insert(0, f);
                    assert(all@.drop_first() =~= tail);
                    Ok((all, k))
                },
            },
        }
    }

    /// The block of option bodies that starts at token `p`.
    fn options_at(&self, p: usize) -> (r: Result<(Vec<OptionDeclaration>, usize), ParserError>)
        requires
            self.wf(),
            p <= self.tokens@.len(),
        ensures
            r is Ok ==> options_end(self.tokens@, self.end, p as int) == Ok::<int, ParserError>(
                r->Ok_0.1 as int,
            ) && options_match(self.tokens@, self.end, p as int, r->Ok_0.0@) && p < r->Ok_0.1
                <= self.tokens@.len(),
            r is Err ==> options_end(self.tokens@, self.end, p as int) == Err::<int, ParserError>(
                r->Err_0,
            ),
        decreases self.tokens@.len() - p,
    {
        if self.kind_is(p, 2) {
            return Ok((Vec::new(), p + 1));
        }
        match self.option_at(p, p) {
            Err(e) => Err(e),
            Ok((o, q)) => match self.options_at(q) {
                Err(e) => Err(e),
                Ok((rest, k)) => {
                    let ghost tail = rest@;
                    let mut all = rest;
                    all.insert(0, o);
                    assert(all@.drop_first() =~= tail);
                    Ok((all, k))
                },
            },
        }
    }

    /// The alternative body that starts at token `i`, spanned from token `start`.
    fn alternative_at(&self, start: usize, i: usize) -> (r: Result<
        (AlternativeDeclaration, usize),
        ParserError,
    >)
        requires
            self.wf(),
            start <= i <= self.tokens@.len(),
        ensures
            r is Ok ==> alternative_end(self.tokens@, self.end, i as int) == Ok::<int, ParserError>(
                r->Ok_0.1 as int,
            ) && alternative_matches(self.tokens@, self.end, start as int, i as int, r->Ok_0.0)
                && i < r->Ok_0.1 <= self.tokens@.len(),
            r is Err ==> alternative_end(self.tokens@, self.end, i as int) == Err::<
                int,
                ParserError,
            >(r->Err_0),
    {
        let name = match self.name_at(i) {
            Ok(n) => n,
            Err(e) => {
                return Err(e);
            },
        };
        if self.kind_is(i + 1, 1) {
            if self.kind_is(i + 2, 2) {
                return Err(self.failure(i + 2));
            }
            match self.options_at(i + 2) {
                Err(e) => Err(e),
                Ok((alternatives, j)) => {
                    let span = self.span_of_tokens(start, j);
                    Ok((AlternativeDeclaration { name, alternatives, span }, j))
                },
            }
        } else {
            let span = self.span_of_tokens(start, i + 1);
            Ok((AlternativeDeclaration::new(name, span), i + 1))
        }
    }

    /// The declaration that starts at token `i`.
    #[verifier::rlimit(40)]
    fn declaration_at(&self, i: usize) -> (r: Result<(Declaration, usize), ParserError>)
        requires
            self.wf(),
            i <= self.tokens@.len(),
        ensures
            r is Ok ==> declaration_end(self.tokens@, self.end, i as int) == Ok::<int, ParserError>(
                r->Ok_0.1 as int,
            ) && declaration_matches(self.tokens@, self.end, i as int, r->Ok_0.0) && i < r->Ok_0.1
                <= self.tokens@.len(),
            r is Err ==> declaration_end(self.tokens@, self.end, i as int) == Err::<
                int,
                ParserError,
            >(r->Err_0),
    {
        if self.kind_is(i, 3) {
            match self.constant_at(i, i + 1) {
                Err(e) => Err(e),
                Ok((c, q)) => Ok((Declaration::Const(c), q)),
            }
        } else if self.kind_is(i, 4) {
            match self.option_at(i, i + 1) {
                Err(e) => Err(e),
                Ok((o, q)) => Ok((Declaration::Opt(o), q)),
            }
        } else if self.kind_is(i, 5) {
            match self.alternative_at(i, i + 1) {
                Err(e) => Err(e),
                Ok((a, q)) => Ok((Declaration::Alt(a), q)),
            }
        } else {
            Err(self.failure(i))
        }
    }

    /// The declarations from token `p` to the end of the stream.
    fn declarations_at(&self, p: usize) -> (r: Result<Vec<Declaration>, ParserError>)
        requires
            self.wf(),
            p <= self.tokens@.len(),
        ensures
            r is Ok ==> document_end(self.tokens@, self.end, p as int) == Ok::<int, ParserError>(
                self.tokens@.len() as int,
            ) && declarations_match(self.tokens@, self.end, p as int, r->Ok_0@),
            r is Err ==> document_end(self.tokens@, self.end, p as int) == Err::<int, ParserError>(
                r->Err_0,
            ),
        decreases self.tokens@.len() - p,
    {
        if p >= self.tokens.len() && self.end.is_end_of_token_stream() {
            return Ok(Vec::new());
        }
        match self.declaration_at(p) {
            Err(e) => Err(e),
            Ok((d, q)) => match self.declarations_at(q) {
                Err(e) => Err(e),
                Ok(rest) => {
                    let ghost tail = rest@;
                    let mut all = rest;
                    all.insert(0, d);
                    assert(all@.drop_first() =~= tail);
                    Ok(all)
                },
            },
        }
    }

    /// Reads a constant declaration: `const` and a constant body; its span starts at the keyword.
    pub fn constant_declaration(&mut self) -> (r: Result<ConstantDeclaration, ParserError>)
        requires
            old(self).wf(),
        ensures
            final(self).wf(),
            final(self).tokens() == old(self).tokens(),
            final(self).end() == old(self).end(),
            final(self).source() == old(self).source(),
            r is Err ==> final(self).pos() == old(self).pos(),
            ({
                let ts = old(self).tokens();
                let e = old(self).end();
                let i = old(self).pos();
                &&& r is Ok <==> (if token_is(ts, i, TokenKind::Const) { constant_end(ts, e, i + 1) } else { Err(failure_at(ts, e, i)) }) is Ok
                &&& r is Ok ==> (if token_is(ts, i, TokenKind::Const) { constant_end(ts, e, i + 1) } else { Err(failure_at(ts, e, i)) }) == Ok::<int, ParserError>(final(self).pos())
                    && constant_matches(ts, e, i, i + 1, r->Ok_0)
                &&& r is Err ==> (if token_is(ts, i, TokenKind::Const) { constant_end(ts, e, i + 1) } else { Err(failure_at(ts, e, i)) }) == Err::<int, ParserError>(r->Err_0)
            }),
    {
        if !self.kind_is(self.position, 3) {
            return Err(self.failure(self.position));
        }
        match self.constant_at(self.position, self.position + 1) {
            Ok((x, j)) => {
                self.position = j;
                Ok(x)
            },
            Err(err) => Err(err),
        }
    }

    /// Reads an option field: a constant declaration, or a nested option body.
    pub fn option_field_declaration(&mut self) -> (r: Result<OptionField, ParserError>)
        requires
            old(self).wf(),
        ensures
            final(self).wf(),
            final(self).tokens() == old(self).tokens(),
            final(self).end() == old(self).end(),
            final(self).source() == old(self).source(),
            r is Err ==> final(self).pos() == old(self).pos(),
            ({
                let ts = old(self).tokens();
                let e = old(self).end();
                let i = old(self).pos();
                &&& r is Ok <==> field_end(ts, e, i) is Ok
                &&& r is Ok ==> field_end(ts, e, i) == Ok::<int, ParserError>(final(self).pos())
                    && field_matches(ts, e, i, r->Ok_0)
                &&& r is Err ==> field_end(ts, e, i) == Err::<int, ParserError>(r->Err_0)
            }),
    {
        match self.field_at(self.position) {
            Ok((x, j)) => {
                self.position = j;
                Ok(x)
            },
            Err(err) => Err(err),
        }
    }

    /// Reads an option body: a name, then optionally an indented block of fields.
    pub fn option_declaration_body(&mut self) -> (r: Result<OptionDeclaration, ParserError>)
        requires
            old(self).wf(),
        ensures
            final(self).wf(),
            final(self).tokens() == old(self).tokens(),
            final(self).end() == old(self).end(),
            final(self).source() == old(self).source(),
            r is Err ==> final(self).pos() == old(self).pos(),
            ({
                let ts = old(self).tokens();
                let e = old(self).end();
                let i = old(self).pos();
                &&& r is Ok <==> option_end(ts, e, i) is Ok
                &&& r is Ok ==> option_end(ts, e, i) == Ok::<int, ParserError>(final(self).pos())
                    && option_matches(ts, e, i, i, r->Ok_0)
                &&& r is Err ==> option_end(ts, e, i) == Err::<int, ParserError>(r->Err_0)
            }),
    {
        match self.option_at(self.position, self.position) {
            Ok((x, j)) => {
                self.position = j;
                Ok(x)
            },
            Err(err) => Err(err),
        }
    }

    /// Reads an option declaration: `opt` and an option body; its span starts at the keyword.
    pub fn option_declaration(&mut self) -> (r: Result<OptionDeclaration, ParserError>)
        requires
            old(self).wf(),
        ensures
            final(self).wf(),
            final(self).tokens() == old(self).tokens(),
            final(self).end() == old(self).end(),
            final(self).source() == old(self).source(),
            r is Err ==> final(self).pos() == old(self).pos(),
            ({
                let ts = old(self).tokens();
                let e = old(self).end();
                let i = old(self).pos();
                &&& r is Ok <==> (if token_is(ts, i, TokenKind::Opt) { option_end(ts, e, i + 1) } else { Err(failure_at(ts, e, i)) }) is Ok
                &&& r is Ok ==> (if token_is(ts, i, TokenKind::Opt) { option_end(ts, e, i + 1) } else { Err(failure_at(ts, e, i)) }) == Ok::<int, ParserError>(final(self).pos())
                    && option_matches(ts, e, i, i + 1, r->Ok_0)
                &&& r is Err ==> (if token_is(ts, i, TokenKind::Opt) { option_end(ts, e, i + 1) } else { Err(failure_at(ts, e, i)) }) == Err::<int, ParserError>(r->Err_0)
            }),
    {
        if !self.kind_is(self.position, 4) {
            return Err(self.failure(self.position));
        }
        match self.option_at(self.position, self.position + 1) {
            Ok((x, j)) => {
                self.position = j;
                Ok(x)
            },
            Err(err) => Err(err),
        }
    }

    /// Reads an alternative body: a name, then optionally an indented block of option bodies.
    pub fn alternative_declaration_body(&mut self) -> (r: Result<AlternativeDeclaration, ParserError>)
        requires
            old(self).wf(),
        ensures
            final(self).wf(),
            final(self).tokens() == old(self).tokens(),
            final(self).end() == old(self).end(),
            final(self).source() == old(self).source(),
            r is Err ==> final(self).pos() == old(self).pos(),
            ({
                let ts = old(self).tokens();
                let e = old(self).end();
                let i = old(self).pos();
                &&& r is Ok <==> alternative_end(ts, e, i) is Ok
                &&& r is Ok ==> alternative_end(ts, e, i) == Ok::<int, ParserError>(final(self).pos())
                    && alternative_matches(ts, e, i, i, r->Ok_0)
                &&& r is Err ==> alternative_end(ts, e, i) == Err::<int, ParserError>(r->Err_0)
            }),
    {
        match self.alternative_at(self.position, self.position) {
            Ok((x, j)) => {
                self.position = j;
                Ok(x)
            },
            Err(err) => Err(err),
        }
    }

    /// Reads an alternative declaration: `alt` and an alternative body; its span starts at the keyword.
    pub fn alternative_declaration(&mut self) -> (r: Result<AlternativeDeclaration, ParserError>)
        requires
            old(self).wf(),
        ensures
            final(self).wf(),
            final(self).tokens() == old(self).tokens(),
            final(self).end() == old(self).end(),
            final(self).source() == old(self).source(),
            r is Err ==> final(self).pos() == old(self).pos(),
            ({
                let ts = old(self).tokens();
                let e = old(self).end();
                let i = old(self).pos();
                &&& r is Ok <==> (if token_is(ts, i, TokenKind::Alt) { alternative_end(ts, e, i + 1) } else { Err(failure_at(ts, e, i)) }) is Ok
                &&& r is Ok ==> (if token_is(ts, i, TokenKind::Alt) { alternative_end(ts, e, i + 1) } else { Err(failure_at(ts, e, i)) }) == Ok::<int, ParserError>(final(self).pos())
                    && alternative_matches(ts, e, i, i + 1, r->Ok_0)
                &&& r is Err ==> (if token_is(ts, i, TokenKind::Alt) { alternative_end(ts, e, i + 1) } else { Err(failure_at(ts, e, i)) }) == Err::<int, ParserError>(r->Err_0)
            }),
    {
        if !self.kind_is(self.position, 5) {
            return Err(self.failure(self.position));
        }
        match self.alternative_at(self.position, self.position + 1) {
            Ok((x, j)) => {
                self.position = j;
                Ok(x)
            },
            Err(err) => Err(err),
        }
    }

    /// Reads one declaration, of the form that its keyword names.
    pub fn declaration(&mut self) -> (r: Result<Declaration, ParserError>)
        requires
            old(self).wf(),
        ensures
            final(self).wf(),
            final(self).tokens() == old(self).tokens(),
            final(self).end() == old(self).end(),
            final(self).source() == old(self).source(),
            r is Err ==> final(self).pos() == old(self).pos(),
            ({
                let ts = old(self).tokens();
                let e = old(self).end();
                let i = old(self).pos();
                &&& r is Ok <==> declaration_end(ts, e, i) is Ok
                &&& r is Ok ==> declaration_end(ts, e, i) == Ok::<int, ParserError>(final(self).pos())
                    && declaration_matches(ts, e, i, r->Ok_0)
                &&& r is Err ==> declaration_end(ts, e, i) == Err::<int, ParserError>(r->Err_0)
            }),
            r is Ok ==> declaration_within(r->Ok_0, old(self).source()),
    {
        match self.declaration_at(self.position) {
            Ok((x, j)) => {
                proof {
                    assert(tokens_within(self.tokens@, self.source@));
                    lemma_declaration_within(self.tokens@, self.end, self.source@, old(self).pos(), x);
                }
                self.position = j;
                Ok(x)
            },
            Err(err) => Err(err),
        }
    }

    /// Reads the declarations up to the end of the input.
    pub fn parse_document(&mut self) -> (r: Result<Document, ParserError>)
        requires
            old(self).wf(),
        ensures
            final(self).wf(),
            final(self).tokens() == old(self).tokens(),
            final(self).end() == old(self).end(),
            final(self).source() == old(self).source(),
            r is Err ==> final(self).pos() == old(self).pos(),
            ({
                let ts = old(self).tokens();
                let e = old(self).end();
                let i = old(self).pos();
                &&& r is Ok <==> document_end(ts, e, i) is Ok
                &&& r is Ok ==> final(self).pos() == ts.len() && declarations_match(
                    ts,
                    e,
                    i,
                    r->Ok_0.entries@,
                )
                &&& r is Err ==> document_end(ts, e, i) == Err::<int, ParserError>(r->Err_0)
            }),
    {
        match self.declarations_at(self.position) {
            Ok(entries) => {
                self.position = self.tokens.len();
                Ok(Document { entries })
            },
            Err(err) => Err(err),
        }
    }

    /// Reads a name.
    pub fn identifier(&mut self) -> (r: Result<String, ParserError>)
        requires
            old(self).wf(),
        ensures
            final(self).wf(),
            final(self).tokens() == old(self).tokens(),
            final(self).end() == old(self).end(),
            final(self).source() == old(self).source(),
            r is Err ==> final(self).pos() == old(self).pos(),
            r is Ok <==> ident_at(old(self).tokens(), old(self).pos()),
            r is Ok ==> r->Ok_0 == old(self).tokens()[old(self).pos()].kind->Ident_0 && final(self).pos() == old(self).pos() + 1,
            r is Err ==> r->Err_0 == failure_at(old(self).tokens(), old(self).end(), old(self).pos()),
    {
        match self.name_at(self.position) {
            Ok(name) => {
                self.position = self.position + 1;
                Ok(name)
            },
            Err(err) => Err(err),
        }
    }

    /// Reads an integer literal.
    pub fn integer(&mut self) -> (r: Result<Literal, ParserError>)
        requires
            old(self).wf(),
        ensures
            final(self).wf(),
            final(self).tokens() == old(self).tokens(),
            final(self).end() == old(self).end(),
            final(self).source() == old(self).source(),
            r is Err ==> final(self).pos() == old(self).pos(),
            ({
                let ts = old(self).tokens();
                let i = old(self).pos();
                &&& r is Ok <==> (0 <= i < ts.len() && ts[i].kind is Integer)
                &&& r is Ok ==> r->Ok_0 == Literal::Integer(ts[i].kind->Integer_0) && final(self).pos() == i + 1
                &&& r is Err ==> r->Err_0 == failure_at(ts, old(self).end(), i)
            }),
    {
        if self.position < self.tokens.len() {
            match self.tokens[self.position].kind {
                TokenKind::Integer(v) => {
                    self.position = self.position + 1;
                    return Ok(Literal::Integer(v));
                },
                _ => {},
            }
        }
        Err(self.failure(self.position))
    }

    /// The next token, without reading it; `None` when the stream has ended.
    pub fn peek(&self) -> (r: Option<Token>)
        requires
            self.wf(),
        ensures
            r is Some <==> self.pos() < self.tokens().len(),
            r is Some ==> r->Some_0 == self.tokens()[self.pos()],
    {
        if self.position < self.tokens.len() {
            Some(self.tokens[self.position].duplicate())
        } else {
            None
        }
    }

    /// Reads the next token; at the end of the stream, what ended it.
    pub fn next(&mut self) -> (r: Result<Token, ParserError>)
        requires
            old(self).wf(),
        ensures
            final(self).wf(),
            final(self).tokens() == old(self).tokens(),
            final(self).end() == old(self).end(),
            final(self).source() == old(self).source(),
            r is Err ==> final(self).pos() == old(self).pos(),
            r is Ok <==> old(self).pos() < old(self).tokens().len(),
            r is Ok ==> r->Ok_0 == old(self).tokens()[old(self).pos()] && final(self).pos() == old(self).pos() + 1,
            r is Err ==> r->Err_0 == old(self).end(),
    {
        if self.position < self.tokens.len() {
            let t = self.tokens[self.position].duplicate();
            self.position = self.position + 1;
            Ok(t)
        } else {
            Err(self.end.duplicate())
        }
    }

    /// Reads an expression.
    pub fn expression(&mut self) -> (r: Result<Expression, ParserError>)
        requires
            old(self).wf(),
        ensures
            final(self).wf(),
            final(self).tokens() == old(self).tokens(),
            final(self).end() == old(self).end(),
            final(self).source() == old(self).source(),
            r is Ok ==> expression_at(old(self).tokens(), old(self).end(), 1, old(self).pos())
                == Ok::<(Expression, int), ParserError>((r->Ok_0, final(self).pos())),
            r is Err ==> expression_at(old(self).tokens(), old(self).end(), 1, old(self).pos())
                == Err::<(Expression, int), ParserError>(r->Err_0),
    {
        match self.parse_level(1, self.position) {
            Ok((e, j)) => {
                self.position = j;
                Ok(e)
            },
            Err(e) => Err(e),
        }
    }
}

} // verus!
