use vstd::prelude::*;
use vstd::utf8::encode_utf8;

use crate::error::ParserError;
use crate::lexer::lexable;
use crate::parser::Parser;
use crate::text::{push_signed, push_text, signed_text};
use crate::token::Span;

verus! {

#[derive(Debug, Clone, Copy, PartialEq, Eq)]
pub enum DiagnosticSeverity {
    Error,
}

/// A message for an editor, attached to a range of the source.
#[derive(Debug, Clone)]
pub struct Diagnostic {
    pub range: Span,
    pub severity: DiagnosticSeverity,
    pub source: String,
    pub message: String,
}

/// Where a diagnostic for the error points: the offending token or
/// whitespace, or the end of the input, as an empty range, when the input
/// ran out.
pub open spec fn error_range(error: ParserError) -> Span {
    match error {
        ParserError::EndOfTokenStream(e) => Span { lo: e.at, hi: e.at },
        ParserError::Indentation(e) => e.span,
        ParserError::UnexpectedToken(e) => e.token.span,
    }
}

/// What a diagnostic for the error says.
pub open spec fn error_message(error: ParserError) -> Seq<char> {
    match error {
        ParserError::EndOfTokenStream(_) => "unexpected end of input"@,
        ParserError::Indentation(e) => "unexpected indentation: expected "@ + signed_text(
            e.expected as int,
        ) + ", found "@ + signed_text(e.actual as int),
        ParserError::UnexpectedToken(_) => "unexpected token"@,
    }
}

/// The diagnostic that an editor shows for a parse error.
pub fn error_to_diagnostic(error: ParserError) -> (r: Diagnostic)
    ensures
        r.range == error_range(error),
        r.severity == DiagnosticSeverity::Error,
        r.source@ == "odl"@,
        r.message@ == error_message(error),
{
    let mut message = String::new();
    let range = match &error {
        ParserError::EndOfTokenStream(e) => {
            push_text(&mut message, "unexpected end of input");
            Span { lo: e.at, hi: e.at }
        },
        ParserError::Indentation(e) => {
            push_text(&mut message, "unexpected indentation: expected ");
            push_signed(&mut message, e.expected);
            push_text(&mut message, ", found ");
            push_signed(&mut message, e.actual);
            e.span
        },
        ParserError::UnexpectedToken(e) => {
            push_text(&mut message, "unexpected token");
            e.token.span
        },
    };
    Diagnostic {
        range,
        severity: DiagnosticSeverity::Error,
        source: "odl".to_owned(),
        message,
    }
}

/// Parses a document that an editor opened or changed: it is accepted
/// exactly when its layout-aware token stream is a sequence of
/// declarations, and the error is the first one met.
pub fn did_open(document: String) -> (r: Result<(), ParserError>)
    requires
        lexable(encode_utf8(document@)),
    ensures
        exists|ts, end| {
            &&& crate::parser::stream_matches(encode_utf8(document@), ts, end)
            &&& crate::parser::layout_stream(encode_utf8(document@), ts, end)
            &&& r is Ok <==> crate::parser::document_end(ts, end, 0) is Ok
            &&& r is Err ==> crate::parser::document_end(ts, end, 0) == Err::<int, ParserError>(
                r->Err_0,
            )
        },
{
    match Parser::parse(document.as_str()) {
        Ok(_) => Ok(()),
        Err(error) => Err(error),
    }
}

} // verus!
