use vstd::prelude::*;

use crate::constant::{ConstantBody, ConstantDeclaration};
use crate::declaration::Declaration;
use crate::error::ParserError;
use crate::expression::{Expression, ExpressionEnum, Literal};
use crate::option::{OptionDeclaration, OptionField};
use crate::parser::{
    alternative_matches, constant_end, constant_matches, constants_end,
    constants_match, declaration_end, declaration_matches, declarations_match, document_end,
    expression_at, field_end, field_matches, fields_end, fields_match, ident_at, level_operator,
    option_end, option_matches, options_end, options_match, token_is,
};
use crate::serialization::{
    constant_text, constants_text, declarations_text, expression_text,
    field_text, fields_text, option_text, options_text, SerializationContext,
};
use crate::lexer::{
    decimal_bytes, hand_end, ident_end, is_digit, item_matches, kind_of, layout,
    layout_from, lemma_integer_round_trip, lexeme_end, spaces_end, visible_start, Layout,
};
use crate::parser::stream_matches;
use crate::token::{Token, TokenKind};

verus! {

/// The two kinds are equal, names compared by their text.
pub open spec fn same_kind(k1: TokenKind, k2: TokenKind) -> bool {
    if k1 is Ident {
        k2 is Ident && k1->Ident_0@ == k2->Ident_0@
    } else {
        k1 == k2
    }
}

/// The two token sequences have the same kinds in the same order; only
/// their spans may differ.
pub open spec fn same_kinds(ts1: Seq<Token>, ts2: Seq<Token>) -> bool {
    &&& ts1.len() == ts2.len()
    &&& forall|k: int| 0 <= k < ts1.len() ==> same_kind(#[trigger] ts1[k].kind, ts2[k].kind)
}

/// Both results are `Ok` with the same value, or both are errors.
pub open spec fn alike(r1: Result<int, ParserError>, r2: Result<int, ParserError>) -> bool {
    &&& (r1 is Ok <==> r2 is Ok)
    &&& r1 is Ok ==> r1->Ok_0 == r2->Ok_0
}

proof fn lemma_same_token(ts1: Seq<Token>, ts2: Seq<Token>, i: int)
    requires
        same_kinds(ts1, ts2),
    ensures
        ident_at(ts1, i) == ident_at(ts2, i),
        ident_at(ts1, i) ==> ts1[i].kind->Ident_0@ == ts2[i].kind->Ident_0@,
        !ident_at(ts1, i) && 0 <= i < ts1.len() ==> ts1[i].kind == ts2[i].kind,
        forall|k: TokenKind| !(k is Ident) ==> token_is(ts1, i, k) == token_is(ts2, i, k),
        forall|n: nat| level_operator(n, ts1, i) == level_operator(n, ts2, i),
{
    if 0 <= i < ts1.len() {
        assert(same_kind(ts1[i].kind, ts2[i].kind));
    }
}

/// Expressions read from streams with the same kinds end at the same token
/// and have the same source text.
pub proof fn lemma_expression_alike(
    ts1: Seq<Token>,
    e1: ParserError,
    ts2: Seq<Token>,
    e2: ParserError,
    n: nat,
    i: int,
)
    requires
        same_kinds(ts1, ts2),
        1 <= n <= 8,
        0 <= i,
    ensures
        expression_at(ts1, e1, n, i) is Ok <==> expression_at(ts2, e2, n, i) is Ok,
        expression_at(ts1, e1, n, i) is Ok ==> {
            &&& expression_at(ts1, e1, n, i)->Ok_0.1 == expression_at(ts2, e2, n, i)->Ok_0.1
            &&& expression_text(expression_at(ts1, e1, n, i)->Ok_0.0) == expression_text(
                expression_at(ts2, e2, n, i)->Ok_0.0,
            )
        },
    decreases ts1.len() - i, 9 - n,
{
    lemma_same_token(ts1, ts2, i);
    if n >= 8 {
        if 0 <= i < ts1.len() && ts1[i].kind is LParen {
            lemma_expression_alike(ts1, e1, ts2, e2, 1, i + 1);
            if let Ok((x, j)) = expression_at(ts1, e1, 1, i + 1) {
                lemma_same_token(ts1, ts2, j);
            }
        }
    } else if n == 7 {
        if token_is(ts1, i, TokenKind::Minus) || token_is(ts1, i, TokenKind::Plus) {
            lemma_expression_alike(ts1, e1, ts2, e2, 7, i + 1);
        } else {
            lemma_expression_alike(ts1, e1, ts2, e2, 8, i);
        }
    } else {
        lemma_expression_alike(ts1, e1, ts2, e2, n + 1, i);
        if let Ok((lhs, j)) = expression_at(ts1, e1, n + 1, i) {
            lemma_same_token(ts1, ts2, j);
            if level_operator(n, ts1, j) is Some && i <= j {
                lemma_expression_alike(ts1, e1, ts2, e2, n, j + 1);
            }
        }
    }
}

proof fn lemma_constant_end_alike(ts1: Seq<Token>, e1: ParserError, ts2: Seq<Token>, e2: ParserError, i: int)
    requires
        same_kinds(ts1, ts2),
        0 <= i,
    ensures
        alike(constant_end(ts1, e1, i), constant_end(ts2, e2, i)),
    decreases ts1.len() - i, 0int,
{
    lemma_same_token(ts1, ts2, i);
    lemma_same_token(ts1, ts2, i + 1);
    if ident_at(ts1, i) {
        if token_is(ts1, i + 1, TokenKind::Assign) {
            lemma_expression_alike(ts1, e1, ts2, e2, 1, i + 2);
        } else if token_is(ts1, i + 1, TokenKind::Indent) {
            lemma_constants_end_alike(ts1, e1, ts2, e2, i + 2);
        }
    }
}

proof fn lemma_constants_end_alike(ts1: Seq<Token>, e1: ParserError, ts2: Seq<Token>, e2: ParserError, p: int)
    requires
        same_kinds(ts1, ts2),
        0 <= p,
    ensures
        alike(constants_end(ts1, e1, p), constants_end(ts2, e2, p)),
    decreases ts1.len() - p, 1int,
{
    lemma_same_token(ts1, ts2, p);
    if !token_is(ts1, p, TokenKind::Deindent) {
        lemma_constant_end_alike(ts1, e1, ts2, e2, p);
        if let Ok(q) = constant_end(ts1, e1, p) {
            if p < q <= ts1.len() {
                lemma_constants_end_alike(ts1, e1, ts2, e2, q);
            }
        }
    }
}

proof fn lemma_option_end_alike(ts1: Seq<Token>, e1: ParserError, ts2: Seq<Token>, e2: ParserError, i: int)
    requires
        same_kinds(ts1, ts2),
        0 <= i,
    ensures
        alike(option_end(ts1, e1, i), option_end(ts2, e2, i)),
    decreases ts1.len() - i, 0int,
{
    lemma_same_token(ts1, ts2, i);
    lemma_same_token(ts1, ts2, i + 1);
    if ident_at(ts1, i) && token_is(ts1, i + 1, TokenKind::Indent) {
        lemma_fields_end_alike(ts1, e1, ts2, e2, i + 2);
    }
}

proof fn lemma_field_end_alike(ts1: Seq<Token>, e1: ParserError, ts2: Seq<Token>, e2: ParserError, p: int)
    requires
        same_kinds(ts1, ts2),
        0 <= p,
    ensures
        alike(field_end(ts1, e1, p), field_end(ts2, e2, p)),
    decreases ts1.len() - p, 1int,
{
    lemma_same_token(ts1, ts2, p);
    if token_is(ts1, p, TokenKind::Const) {
        lemma_constant_end_alike(ts1, e1, ts2, e2, p + 1);
    } else {
        lemma_option_end_alike(ts1, e1, ts2, e2, p);
    }
}

proof fn lemma_fields_end_alike(ts1: Seq<Token>, e1: ParserError, ts2: Seq<Token>, e2: ParserError, p: int)
    requires
        same_kinds(ts1, ts2),
        0 <= p,
    ensures
        alike(fields_end(ts1, e1, p), fields_end(ts2, e2, p)),
    decreases ts1.len() - p, 2int,
{
    lemma_same_token(ts1, ts2, p);
    if !token_is(ts1, p, TokenKind::Deindent) {
        lemma_field_end_alike(ts1, e1, ts2, e2, p);
        if let Ok(q) = field_end(ts1, e1, p) {
            if p < q <= ts1.len() {
                lemma_fields_end_alike(ts1, e1, ts2, e2, q);
            }
        }
    }
}

proof fn lemma_options_end_alike(ts1: Seq<Token>, e1: ParserError, ts2: Seq<Token>, e2: ParserError, p: int)
    requires
        same_kinds(ts1, ts2),
        0 <= p,
    ensures
        alike(options_end(ts1, e1, p), options_end(ts2, e2, p)),
    decreases ts1.len() - p,
{
    lemma_same_token(ts1, ts2, p);
    if !token_is(ts1, p, TokenKind::Deindent) {
        lemma_option_end_alike(ts1, e1, ts2, e2, p);
        if let Ok(q) = option_end(ts1, e1, p) {
            if p < q <= ts1.len() {
                lemma_options_end_alike(ts1, e1, ts2, e2, q);
            }
        }
    }
}

proof fn lemma_declaration_end_alike(ts1: Seq<Token>, e1: ParserError, ts2: Seq<Token>, e2: ParserError, i: int)
    requires
        same_kinds(ts1, ts2),
        0 <= i,
    ensures
        alike(declaration_end(ts1, e1, i), declaration_end(ts2, e2, i)),
{
    lemma_same_token(ts1, ts2, i);
    lemma_same_token(ts1, ts2, i + 1);
    lemma_same_token(ts1, ts2, i + 2);
    lemma_constant_end_alike(ts1, e1, ts2, e2, i + 1);
    lemma_option_end_alike(ts1, e1, ts2, e2, i + 1);
    lemma_options_end_alike(ts1, e1, ts2, e2, i + 3);
}

/// Streams with the same kinds, ended alike, are read alike: both are
/// accepted or both refused, and the declarations split at the same tokens.
pub proof fn lemma_document_end_alike(
    ts1: Seq<Token>,
    e1: ParserError,
    ts2: Seq<Token>,
    e2: ParserError,
    p: int,
)
    requires
        same_kinds(ts1, ts2),
        e1 is EndOfTokenStream <==> e2 is EndOfTokenStream,
        0 <= p,
    ensures
        alike(document_end(ts1, e1, p), document_end(ts2, e2, p)),
    decreases ts1.len() - p,
{
    lemma_declaration_end_alike(ts1, e1, ts2, e2, p);
    if !(p >= ts1.len() && e1 is EndOfTokenStream) {
        if let Ok(q) = declaration_end(ts1, e1, p) {
            if p < q <= ts1.len() {
                lemma_document_end_alike(ts1, e1, ts2, e2, q);
            }
        }
    }
}

proof fn lemma_constant_text_alike(
    ts1: Seq<Token>,
    e1: ParserError,
    ts2: Seq<Token>,
    e2: ParserError,
    s1: int,
    s2: int,
    i: int,
    c1: ConstantDeclaration,
    c2: ConstantDeclaration,
    ctx: SerializationContext,
)
    requires
        same_kinds(ts1, ts2),
        0 <= i,
        constant_matches(ts1, e1, s1, i, c1),
        constant_matches(ts2, e2, s2, i, c2),
    ensures
        constant_text(c1, ctx) == constant_text(c2, ctx),
    decreases c1,
{
    lemma_same_token(ts1, ts2, i);
    lemma_same_token(ts1, ts2, i + 1);
    match c1.body {
        ConstantBody::Direct(x) => {
            lemma_expression_alike(ts1, e1, ts2, e2, 1, i + 2);
        },
        ConstantBody::Content(cs) => {
            lemma_constants_text_alike(
                ts1,
                e1,
                ts2,
                e2,
                i + 2,
                cs@,
                c2.body->Content_0@,
                crate::serialization::deeper(crate::serialization::with_kind(ctx, crate::serialization::EmissionKind::Const)),
            );
        },
    }
}

proof fn lemma_constants_text_alike(
    ts1: Seq<Token>,
    e1: ParserError,
    ts2: Seq<Token>,
    e2: ParserError,
    p: int,
    cs1: Seq<ConstantDeclaration>,
    cs2: Seq<ConstantDeclaration>,
    ctx: SerializationContext,
)
    requires
        same_kinds(ts1, ts2),
        0 <= p,
        constants_match(ts1, e1, p, cs1),
        constants_match(ts2, e2, p, cs2),
    ensures
        constants_text(cs1, ctx) == constants_text(cs2, ctx),
    decreases cs1,
{
    lemma_same_token(ts1, ts2, p);
    if cs1.len() > 0 {
        assert(cs2.len() > 0);
        lemma_constant_text_alike(ts1, e1, ts2, e2, p, p, p, cs1[0], cs2[0], ctx);
        lemma_constant_end_alike(ts1, e1, ts2, e2, p);
        crate::parser::lemma_constant_end_bounds(ts1, e1, p);
        assert(constant_matches(ts1, e1, p, p, cs1[0]));
        assert(constant_matches(ts2, e2, p, p, cs2[0]));
        lemma_constants_text_alike(
            ts1,
            e1,
            ts2,
            e2,
            constant_end(ts1, e1, p)->Ok_0,
            cs1.drop_first(),
            cs2.drop_first(),
            ctx,
        );
    } else {
        assert(cs2.len() == 0);
    }
}

proof fn lemma_option_text_alike(
    ts1: Seq<Token>,
    e1: ParserError,
    ts2: Seq<Token>,
    e2: ParserError,
    s1: int,
    s2: int,
    i: int,
    o1: OptionDeclaration,
    o2: OptionDeclaration,
    ctx: SerializationContext,
)
    requires
        same_kinds(ts1, ts2),
        0 <= i,
        option_matches(ts1, e1, s1, i, o1),
        option_matches(ts2, e2, s2, i, o2),
    ensures
        option_text(o1, ctx) == option_text(o2, ctx),
    decreases o1,
{
    lemma_same_token(ts1, ts2, i);
    lemma_same_token(ts1, ts2, i + 1);
    if token_is(ts1, i + 1, TokenKind::Indent) {
        lemma_fields_text_alike(
            ts1,
            e1,
            ts2,
            e2,
            i + 2,
            o1.fields@,
            o2.fields@,
            crate::serialization::with_kind(crate::serialization::deeper(ctx), crate::serialization::EmissionKind::Opt),
        );
    } else {
        assert(o1.fields@ =~= o2.fields@);
    }
}

proof fn lemma_field_text_alike(
    ts1: Seq<Token>,
    e1: ParserError,
    ts2: Seq<Token>,
    e2: ParserError,
    p: int,
    f1: OptionField,
    f2: OptionField,
    ctx: SerializationContext,
)
    requires
        same_kinds(ts1, ts2),
        0 <= p,
        field_matches(ts1, e1, p, f1),
        field_matches(ts2, e2, p, f2),
    ensures
        field_text(f1, ctx) == field_text(f2, ctx),
    decreases f1,
{
    lemma_same_token(ts1, ts2, p);
    if token_is(ts1, p, TokenKind::Const) {
        lemma_constant_text_alike(ts1, e1, ts2, e2, p, p, p + 1, f1->Const_0, f2->Const_0, ctx);
    } else {
        lemma_option_text_alike(ts1, e1, ts2, e2, p, p, p, f1->SubOption_0, f2->SubOption_0, ctx);
    }
}

proof fn lemma_fields_text_alike(
    ts1: Seq<Token>,
    e1: ParserError,
    ts2: Seq<Token>,
    e2: ParserError,
    p: int,
    fs1: Seq<OptionField>,
    fs2: Seq<OptionField>,
    ctx: SerializationContext,
)
    requires
        same_kinds(ts1, ts2),
        0 <= p,
        fields_match(ts1, e1, p, fs1),
        fields_match(ts2, e2, p, fs2),
    ensures
        fields_text(fs1, ctx) == fields_text(fs2, ctx),
    decreases fs1,
{
    lemma_same_token(ts1, ts2, p);
    if fs1.len() > 0 {
        assert(fs2.len() > 0);
        lemma_field_text_alike(ts1, e1, ts2, e2, p, fs1[0], fs2[0], ctx);
        lemma_field_end_alike(ts1, e1, ts2, e2, p);
        crate::parser::lemma_field_end_bounds(ts1, e1, p);
        assert(field_matches(ts1, e1, p, fs1[0]));
        if token_is(ts1, p, TokenKind::Const) {
            assert(constant_matches(ts1, e1, p, p + 1, fs1[0]->Const_0));
        } else {
            assert(option_matches(ts1, e1, p, p, fs1[0]->SubOption_0));
        }
        lemma_fields_text_alike(
            ts1,
            e1,
            ts2,
            e2,
            field_end(ts1, e1, p)->Ok_0,
            fs1.drop_first(),
            fs2.drop_first(),
            ctx,
        );
    } else {
        assert(fs2.len() == 0);
    }
}

proof fn lemma_options_text_alike(
    ts1: Seq<Token>,
    e1: ParserError,
    ts2: Seq<Token>,
    e2: ParserError,
    p: int,
    os1: Seq<OptionDeclaration>,
    os2: Seq<OptionDeclaration>,
    ctx: SerializationContext,
)
    requires
        same_kinds(ts1, ts2),
        0 <= p,
        options_match(ts1, e1, p, os1),
        options_match(ts2, e2, p, os2),
    ensures
        options_text(os1, ctx) == options_text(os2, ctx),
    decreases os1.len(),
{
    lemma_same_token(ts1, ts2, p);
    if os1.len() > 0 {
        assert(os2.len() > 0);
        lemma_option_text_alike(ts1, e1, ts2, e2, p, p, p, os1[0], os2[0], ctx);
        lemma_option_end_alike(ts1, e1, ts2, e2, p);
        crate::parser::lemma_option_end_bounds(ts1, e1, p);
        assert(option_matches(ts1, e1, p, p, os1[0]));
        assert(option_matches(ts2, e2, p, p, os2[0]));
        lemma_options_text_alike(
            ts1,
            e1,
            ts2,
            e2,
            option_end(ts1, e1, p)->Ok_0,
            os1.drop_first(),
            os2.drop_first(),
            ctx,
        );
    } else {
        assert(os2.len() == 0);
    }
}

proof fn lemma_declarations_text_alike(
    ts1: Seq<Token>,
    e1: ParserError,
    ts2: Seq<Token>,
    e2: ParserError,
    p: int,
    ds1: Seq<Declaration>,
    ds2: Seq<Declaration>,
    ctx: SerializationContext,
)
    requires
        same_kinds(ts1, ts2),
        e1 is EndOfTokenStream <==> e2 is EndOfTokenStream,
        0 <= p,
        declarations_match(ts1, e1, p, ds1),
        declarations_match(ts2, e2, p, ds2),
    ensures
        declarations_text(ds1, ctx) == declarations_text(ds2, ctx),
    decreases ds1.len(),
{
    lemma_same_token(ts1, ts2, p);
    lemma_same_token(ts1, ts2, p + 1);
    lemma_same_token(ts1, ts2, p + 2);
    if ds1.len() > 0 {
        assert(ds2.len() > 0);
        let d1 = ds1[0];
        let d2 = ds2[0];
        assert(declaration_matches(ts1, e1, p, d1));
        assert(declaration_matches(ts2, e2, p, d2));
        if token_is(ts1, p, TokenKind::Const) {
            lemma_constant_text_alike(ts1, e1, ts2, e2, p, p, p + 1, d1->Const_0, d2->Const_0, ctx);
        } else if token_is(ts1, p, TokenKind::Opt) {
            lemma_option_text_alike(ts1, e1, ts2, e2, p, p, p + 1, d1->Opt_0, d2->Opt_0, ctx);
        } else {
            let a1 = d1->Alt_0;
            let a2 = d2->Alt_0;
            assert(alternative_matches(ts1, e1, p, p + 1, a1));
            assert(alternative_matches(ts2, e2, p, p + 1, a2));
            if token_is(ts1, p + 2, TokenKind::Indent) {
                lemma_options_text_alike(
                    ts1,
                    e1,
                    ts2,
                    e2,
                    p + 3,
                    a1.alternatives@,
                    a2.alternatives@,
                    crate::serialization::with_kind(crate::serialization::deeper(ctx), crate::serialization::EmissionKind::Opt),
                );
            } else {
                assert(a1.alternatives@ =~= a2.alternatives@);
            }
        }
        lemma_declaration_end_alike(ts1, e1, ts2, e2, p);
        crate::parser::lemma_declarations_within_bounds(ts1, e1, p, ds1);
        lemma_declarations_text_alike(
            ts1,
            e1,
            ts2,
            e2,
            declaration_end(ts1, e1, p)->Ok_0,
            ds1.drop_first(),
            ds2.drop_first(),
            ctx,
        );
    } else {
        assert(ds2.len() == 0);
    }
}

/// Token streams that differ only in their spans, and end alike, parse
/// alike: the one is accepted exactly when the other is, and the
/// declarations read from them have the same source text.
pub proof fn lemma_spans_do_not_steer(
    ts1: Seq<Token>,
    e1: ParserError,
    ts2: Seq<Token>,
    e2: ParserError,
    ds1: Seq<Declaration>,
    ds2: Seq<Declaration>,
)
    requires
        same_kinds(ts1, ts2),
        e1 is EndOfTokenStream <==> e2 is EndOfTokenStream,
    ensures
        document_end(ts1, e1, 0) is Ok <==> document_end(ts2, e2, 0) is Ok,
        declarations_match(ts1, e1, 0, ds1) && declarations_match(ts2, e2, 0, ds2)
            ==> declarations_text(ds1, SerializationContext::new_spec()) == declarations_text(
            ds2,
            SerializationContext::new_spec(),
        ),
{
    lemma_document_end_alike(ts1, e1, ts2, e2, 0);
    if declarations_match(ts1, e1, 0, ds1) && declarations_match(ts2, e2, 0, ds2) {
        lemma_declarations_text_alike(ts1, e1, ts2, e2, 0, ds1, ds2, SerializationContext::new_spec());
    }
}


proof fn lemma_kind_of_unique(k1: TokenKind, k2: TokenKind, b: Seq<u8>, i: int, j: int)
    requires
        kind_of(k1, b, i, j),
        kind_of(k2, b, i, j),
    ensures
        same_kind(k1, k2),
{
}

/// The stream of a source is fixed: any two token sequences that match it
/// have the same kinds, names compared by their text, and the same end.
pub proof fn lemma_stream_determined(
    b: Seq<u8>,
    ts1: Seq<Token>,
    e1: ParserError,
    ts2: Seq<Token>,
    e2: ParserError,
)
    requires
        stream_matches(b, ts1, e1),
        stream_matches(b, ts2, e2),
    ensures
        same_kinds(ts1, ts2),
        e1 == e2,
{
    assert forall|k: int| 0 <= k < ts1.len() implies same_kind(#[trigger] ts1[k].kind, ts2[k].kind) by {
        assert(item_matches(ts1[k], layout(b).0[k], b));
        assert(item_matches(ts2[k], layout(b).0[k], b));
        if let Layout::Lexeme(i) = layout(b).0[k] {
            lemma_kind_of_unique(ts1[k].kind, ts2[k].kind, b, i, lexeme_end(b, i));
        }
    }
}

/// What the parser makes of a source does not depend on which token
/// sequence matching its stream it reads: the document is accepted from
/// both or from neither, with declarations of the same source text.
pub proof fn lemma_parse_determined(
    b: Seq<u8>,
    ts1: Seq<Token>,
    e1: ParserError,
    ts2: Seq<Token>,
    e2: ParserError,
    ds1: Seq<Declaration>,
    ds2: Seq<Declaration>,
)
    requires
        stream_matches(b, ts1, e1),
        stream_matches(b, ts2, e2),
    ensures
        document_end(ts1, e1, 0) is Ok <==> document_end(ts2, e2, 0) is Ok,
        declarations_match(ts1, e1, 0, ds1) && declarations_match(ts2, e2, 0, ds2)
            ==> declarations_text(ds1, SerializationContext::new_spec()) == declarations_text(
            ds2,
            SerializationContext::new_spec(),
        ),
{
    lemma_stream_determined(b, ts1, e1, ts2, e2);
    lemma_spans_do_not_steer(ts1, e1, ts2, e2, ds1, ds2);
}


/// The source `const x = <n>`, with `n` in decimal.
pub open spec fn const_x_text(n: nat) -> Seq<u8> {
    seq![99u8, 111u8, 110u8, 115u8, 116u8, 32u8, 120u8, 32u8, 61u8, 32u8] + decimal_bytes(n)
}

/// The stream of `const x = <n>` is its four lexemes, with no layout.
proof fn lemma_const_x_layout(n: nat)
    requires
        n <= i64::MAX,
    ensures
        layout(const_x_text(n)).0 == seq![
            Layout::Lexeme(0),
            Layout::Lexeme(6),
            Layout::Lexeme(8),
            Layout::Lexeme(10),
        ],
{
    let b = const_x_text(n);
    let d = decimal_bytes(n);
    let len = b.len() as int;
    assert(b.subrange(10, 10 + d.len() as int) =~= d);
    lemma_integer_round_trip(b, 10, n);
    assert(b[0] == 99u8 && b[5] == 32u8 && b[6] == 120u8 && b[7] == 32u8 && b[8] == 61u8 && b[9] == 32u8);
    assert(ident_end(b, 5) == 5);
    assert(ident_end(b, 0) == 5) by {
        assert(b[1] == 111u8 && b[2] == 110u8 && b[3] == 115u8 && b[4] == 116u8);
        assert(ident_end(b, 4) == 5);
        assert(ident_end(b, 3) == 5);
        assert(ident_end(b, 2) == 5);
        assert(ident_end(b, 1) == 5);
    }
    assert(ident_end(b, 7) == 7);
    assert(ident_end(b, 6) == 7);
    assert(visible_start(b, 0) == 0);
    assert(hand_end(b, 0) == 5);
    assert(spaces_end(b, 6) == 6);
    assert(spaces_end(b, 5) == 6);
    assert(hand_end(b, 5) == 6);
    assert(hand_end(b, 6) == 7);
    assert(spaces_end(b, 8) == 8);
    assert(spaces_end(b, 7) == 8);
    assert(hand_end(b, 7) == 8);
    assert(hand_end(b, 8) == 9);
    assert(is_digit(b[10]));
    assert(spaces_end(b, 10) == 10);
    assert(spaces_end(b, 9) == 10);
    assert(hand_end(b, 9) == 10);
    assert(hand_end(b, 10) == len);
    let e = layout_from(b, len, false, Seq::empty());
    assert(e.0 =~= Seq::<Layout>::empty());
    let l10 = layout_from(b, 10, false, Seq::empty());
    assert(l10.0 =~= seq![Layout::Lexeme(10)]);
    let l9 = layout_from(b, 9, false, Seq::empty());
    assert(l9.0 == l10.0);
    let l8 = layout_from(b, 8, false, Seq::empty());
    assert(l8.0 =~= seq![Layout::Lexeme(8), Layout::Lexeme(10)]);
    let l7 = layout_from(b, 7, false, Seq::empty());
    assert(l7.0 == l8.0);
    let l6 = layout_from(b, 6, false, Seq::empty());
    assert(l6.0 =~= seq![Layout::Lexeme(6), Layout::Lexeme(8), Layout::Lexeme(10)]);
    let l5 = layout_from(b, 5, false, Seq::empty());
    assert(l5.0 == l6.0);
    let l0 = layout_from(b, 0, true, Seq::empty());
    assert(l0.0 =~= seq![
        Layout::Lexeme(0),
        Layout::Lexeme(6),
        Layout::Lexeme(8),
        Layout::Lexeme(10),
    ]);
}


/// The tokens of `const x = <n>`.
proof fn lemma_const_x_tokens(n: nat, ts: Seq<Token>, end: ParserError)
    requires
        n <= i64::MAX,
        stream_matches(const_x_text(n), ts, end),
    ensures
        ts.len() == 4,
        token_is(ts, 0, TokenKind::Const),
        ts[1].kind is Ident && ts[1].kind->Ident_0@ == seq!['x'],
        token_is(ts, 2, TokenKind::Assign),
        ts[3].kind == TokenKind::Integer(n as i64),
{
    let b = const_x_text(n);
    let d = decimal_bytes(n);
    lemma_const_x_layout(n);
    assert(b.subrange(10, 10 + d.len() as int) =~= d);
    lemma_integer_round_trip(b, 10, n);
    assert(item_matches(ts[0], Layout::Lexeme(0), b));
    assert(item_matches(ts[1], Layout::Lexeme(6), b));
    assert(item_matches(ts[2], Layout::Lexeme(8), b));
    assert(item_matches(ts[3], Layout::Lexeme(10), b));
    assert(b[0] == 99u8 && b[1] == 111u8 && b[2] == 110u8 && b[3] == 115u8 && b[4] == 116u8);
    assert(b[5] == 32u8 && b[6] == 120u8 && b[7] == 32u8 && b[8] == 61u8 && b[9] == 32u8);
    assert(ident_end(b, 7) == 7);
    assert(ident_end(b, 6) == 7);
    assert(ident_end(b, 5) == 5);
    assert(ident_end(b, 0) == 5) by {
        assert(ident_end(b, 4) == 5);
        assert(ident_end(b, 3) == 5);
        assert(ident_end(b, 2) == 5);
        assert(ident_end(b, 1) == 5);
    }
    assert(b.subrange(0, 5) =~= seq![99u8, 111u8, 110u8, 115u8, 116u8]);
    assert(b.subrange(6, 7) =~= seq![120u8]);
    assert(crate::lexer::ascii_text(b.subrange(6, 7)) =~= seq!['x']);
    assert(lexeme_end(b, 8) == 9);
    lemma_kind_of_unique(ts[3].kind, TokenKind::Integer(n as i64), b, 10, lexeme_end(b, 10));
}

/// Reading `const x = <n>`, for any `n` that fits in `i64`, gives the
/// constant `x` set to the integer `n`: the tokens are `const`, the name
/// `x`, `=` and the integer `n`, the constant body after `const` ends with
/// them, and its initializer is the literal `n`.
pub proof fn lemma_integer_constant_reads_back(n: nat, ts: Seq<Token>, end: ParserError)
    requires
        n <= i64::MAX,
        stream_matches(const_x_text(n), ts, end),
    ensures
        ts.len() == 4,
        token_is(ts, 0, TokenKind::Const),
        ts[1].kind is Ident && ts[1].kind->Ident_0@ == seq!['x'],
        token_is(ts, 2, TokenKind::Assign),
        ts[3].kind == TokenKind::Integer(n as i64),
        constant_end(ts, end, 1) == Ok::<int, ParserError>(4),
        expression_at(ts, end, 1, 3) == Ok::<(Expression, int), ParserError>(
            (
                Expression {
                    content: ExpressionEnum::Lit(Literal::Integer(n as i64)),
                    span: ts[3].span,
                },
                4,
            ),
        ),
{
    lemma_const_x_tokens(n, ts, end);
    let lit = Expression {
        content: ExpressionEnum::Lit(Literal::Integer(n as i64)),
        span: ts[3].span,
    };
    assert(expression_at(ts, end, 8, 3) == Ok::<(Expression, int), ParserError>((lit, 4)));
    assert(expression_at(ts, end, 7, 3) == Ok::<(Expression, int), ParserError>((lit, 4)));
    assert(expression_at(ts, end, 6, 3) == Ok::<(Expression, int), ParserError>((lit, 4)));
    assert(expression_at(ts, end, 5, 3) == Ok::<(Expression, int), ParserError>((lit, 4)));
    assert(expression_at(ts, end, 4, 3) == Ok::<(Expression, int), ParserError>((lit, 4)));
    assert(expression_at(ts, end, 3, 3) == Ok::<(Expression, int), ParserError>((lit, 4)));
    assert(expression_at(ts, end, 2, 3) == Ok::<(Expression, int), ParserError>((lit, 4)));
    assert(expression_at(ts, end, 1, 3) == Ok::<(Expression, int), ParserError>((lit, 4)));
}

} // verus!
