use vstd::prelude::*;

use crate::token::{SourceLocation, Span, Token};

verus! {

/// A line started with leading whitespace that matches no open indentation level.
#[derive(Debug, Clone)]
pub struct IndentationError {
    pub span: Span,
    pub expected: i64,
    pub actual: i64,
}

/// The parser needed a token and the input had none left; `at` is the
/// location at the end of the input.
#[derive(Debug, Clone)]
pub struct EndOfTokenStreamError {
    pub at: SourceLocation,
}

/// The token at hand has no place in the grammar at this point.
#[derive(Debug, Clone)]
pub struct UnexpectedTokenError {
    pub token: Token,
}

#[derive(Debug, Clone)]
pub enum ParserError {
    EndOfTokenStream(EndOfTokenStreamError),
    Indentation(IndentationError),
    UnexpectedToken(UnexpectedTokenError),
}

impl ParserError {
    /// A copy of this error, equal to it.
    pub fn duplicate(&self) -> (r: ParserError)
        ensures
            r == *self,
    {
        match self {
            ParserError::EndOfTokenStream(e) => ParserError::EndOfTokenStream(
                EndOfTokenStreamError { at: e.at },
            ),
            ParserError::Indentation(e) => ParserError::Indentation(
                IndentationError { span: e.span, expected: e.expected, actual: e.actual },
            ),
            ParserError::UnexpectedToken(e) => ParserError::UnexpectedToken(
                UnexpectedTokenError { token: e.token.duplicate() },
            ),
        }
    }

    pub fn new_unexpected_token(token: Token) -> (r: ParserError)
        ensures
            r == ParserError::UnexpectedToken(UnexpectedTokenError { token }),
    {
        ParserError::UnexpectedToken(UnexpectedTokenError { token })
    }

    pub fn new_end_of_token_stream(at: SourceLocation) -> (r: ParserError)
        ensures
            r == ParserError::EndOfTokenStream(EndOfTokenStreamError { at }),
    {
        ParserError::EndOfTokenStream(EndOfTokenStreamError { at })
    }

    pub fn new_indentation_miss_match(span: Span, expected: i64, actual: i64) -> (r: ParserError)
        ensures
            r == ParserError::Indentation(IndentationError { span, expected, actual }),
    {
        ParserError::Indentation(IndentationError { span, expected, actual })
    }

    pub fn is_indentation_error(&self) -> (r: bool)
        ensures
            r == self is Indentation,
    {
        match self {
            ParserError::Indentation(_) => true,
            _ => false,
        }
    }

    pub fn is_unexpected_token_error(&self) -> (r: bool)
        ensures
            r == self is UnexpectedToken,
    {
        match self {
            ParserError::UnexpectedToken(_) => true,
            _ => false,
        }
    }

    pub fn is_end_of_token_stream(&self) -> (r: bool)
        ensures
            r == self is EndOfTokenStream,
    {
        match self {
            ParserError::EndOfTokenStream(_) => true,
            _ => false,
        }
    }

    pub fn get_indentation_error(&self) -> (r: Option<&IndentationError>)
        ensures
            r is Some <==> self is Indentation,
            r is Some ==> *r->Some_0 == self->Indentation_0,
    {
        match self {
            ParserError::Indentation(error) => Some(error),
            _ => None,
        }
    }

    pub fn get_unexpected_token(&self) -> (r: Option<&UnexpectedTokenError>)
        ensures
            r is Some <==> self is UnexpectedToken,
            r is Some ==> *r->Some_0 == self->UnexpectedToken_0,
    {
        match self {
            ParserError::UnexpectedToken(error) => Some(error),
            _ => None,
        }
    }

    pub fn get_end_of_token_stream(&self) -> (r: Option<&EndOfTokenStreamError>)
        ensures
            r is Some <==> self is EndOfTokenStream,
            r is Some ==> *r->Some_0 == self->EndOfTokenStream_0,
    {
        match self {
            ParserError::EndOfTokenStream(error) => Some(error),
            _ => None,
        }
    }
}

} // verus!
