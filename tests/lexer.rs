use odl::error::ParserError;
use odl::lexer::{is_lexable, IndentLexer, Lexer};
use odl::token::{SourceLocation, Span, Token, TokenKind};

fn token_kind(option: &Option<Result<Token, ParserError>>) -> TokenKind {
    assert!(option.is_some());
    let maybe_error = option.as_ref().unwrap();
    assert!(maybe_error.is_ok());
    let token = maybe_error.as_ref().unwrap();
    return token.kind.clone();
}

fn token_span(option: &Option<Result<Token, ParserError>>) -> Span {
    assert!(option.is_some());
    let maybe_error = option.as_ref().unwrap();
    assert!(maybe_error.is_ok());
    let token = maybe_error.as_ref().unwrap();
    return token.span.clone();
}

fn all_kinds(s: &str) -> Vec<TokenKind> {
    let mut lexer = IndentLexer::new(s);
    let mut kinds = Vec::new();
    while let Some(item) = lexer.next() {
        kinds.push(item.unwrap().kind);
    }
    kinds
}

#[test]
fn identifier_test() {
    let mut lexer = IndentLexer::new("hey");
    let kind = token_kind(&lexer.next());
    assert_eq!(kind, TokenKind::Ident("hey".to_owned()));
    assert!(lexer.next().is_none());
}

#[test]
fn span_identifier_test() {
    let mut lexer = IndentLexer::new("hey");
    let span = token_span(&lexer.next());
    assert_eq!(span.lo, SourceLocation { row: 0, column: 0 });
    assert_eq!(span.hi, SourceLocation { row: 0, column: 3 });
    assert!(lexer.next().is_none());
}

#[test]
fn comment_test() {
    let mut lexer = IndentLexer::new("asd #hey\n");
    assert_eq!(token_kind(&lexer.next()), TokenKind::Ident("asd".to_owned()));
    assert!(lexer.next().is_none());
}

#[test]
fn indent_test() {
    let mut lexer = IndentLexer::new(" asd\n  asd\n asd\nasd\n");
    let asd_token = TokenKind::Ident("asd".to_owned());
    assert_eq!(token_kind(&lexer.next()), TokenKind::Indent);
    assert_eq!(token_kind(&lexer.next()), asd_token);
    assert_eq!(token_kind(&lexer.next()), TokenKind::Indent);
    assert_eq!(token_kind(&lexer.next()), asd_token);
    assert_eq!(token_kind(&lexer.next()), TokenKind::Deindent);
    assert_eq!(token_kind(&lexer.next()), asd_token);
    assert_eq!(token_kind(&lexer.next()), TokenKind::Deindent);
    assert_eq!(token_kind(&lexer.next()), asd_token);
    assert!(lexer.next().is_none());
}

#[test]
fn fail_indent_test() {
    let mut lexer = IndentLexer::new("  asd\n asd\n");
    let asd_token = TokenKind::Ident("asd".to_owned());
    assert_eq!(token_kind(&lexer.next()), TokenKind::Indent);
    assert_eq!(token_kind(&lexer.next()), asd_token);
    assert!(lexer.next().unwrap().is_err());
}

#[test]
fn assing_test() {
    let mut lexer = IndentLexer::new(" = ");
    assert_eq!(token_kind(&lexer.next()), TokenKind::Indent);
    assert_eq!(token_kind(&lexer.next()), TokenKind::Assign);
    assert_eq!(token_kind(&lexer.next()), TokenKind::Deindent);
    assert!(lexer.next().is_none());
}

#[test]
fn constant_test() {
    let mut lexer = IndentLexer::new("const asd\n rasd = 4\n\n");
    assert_eq!(token_kind(&lexer.next()), TokenKind::Const);
    assert_eq!(token_kind(&lexer.next()), TokenKind::Ident("asd".to_owned()));
    assert_eq!(token_kind(&lexer.next()), TokenKind::Indent);
    assert_eq!(token_kind(&lexer.next()), TokenKind::Ident("rasd".to_owned()));
    assert_eq!(token_kind(&lexer.next()), TokenKind::Assign);
    assert_eq!(token_kind(&lexer.next()), TokenKind::Integer(4));
    assert_eq!(token_kind(&lexer.next()), TokenKind::Deindent);
    assert!(lexer.next().is_none());
}

#[test]
fn indent_test_2() {
    let mut lexer = IndentLexer::new("\n \n\n");
    assert_eq!(token_kind(&lexer.next()), TokenKind::Indent);
    assert_eq!(token_kind(&lexer.next()), TokenKind::Deindent);
    assert!(lexer.next().is_none());
}

#[test]
fn indentation_error_reports_widths() {
    let mut lexer = IndentLexer::new("  asd\n asd\n");
    lexer.next();
    lexer.next();
    let error = lexer.next().unwrap().unwrap_err();
    let indentation = error.get_indentation_error().unwrap();
    assert_eq!(indentation.expected, 2);
    assert_eq!(indentation.actual, 1);
    assert_eq!(indentation.span.lo, SourceLocation { row: 1, column: 0 });
    assert_eq!(indentation.span.hi, SourceLocation { row: 1, column: 1 });
}

#[test]
fn comment_then_end_of_stream() {
    assert_eq!(all_kinds("asd #comment\n"), vec![TokenKind::Ident("asd".to_owned())]);
}

#[test]
fn indents_and_deindents_balance() {
    let kinds = all_kinds("a\n b\n  c\n   d\ne\n f\n");
    let mut depth: i64 = 0;
    for k in &kinds {
        match k {
            TokenKind::Indent => depth += 1,
            TokenKind::Deindent => depth -= 1,
            _ => {}
        }
        assert!(depth >= 0);
    }
    assert_eq!(depth, 0);
    let indents = kinds.iter().filter(|k| **k == TokenKind::Indent).count();
    assert_eq!(indents, 4);
}

#[test]
fn operators_and_keywords() {
    assert_eq!(
        all_kinds("a == b != c <= d < e >= f > g + - * / ( ) ; = or and opt alt const"),
        vec![
            TokenKind::Ident("a".to_owned()),
            TokenKind::Equals,
            TokenKind::Ident("b".to_owned()),
            TokenKind::Different,
            TokenKind::Ident("c".to_owned()),
            TokenKind::LessEqual,
            TokenKind::Ident("d".to_owned()),
            TokenKind::Less,
            TokenKind::Ident("e".to_owned()),
            TokenKind::GreaterEqual,
            TokenKind::Ident("f".to_owned()),
            TokenKind::Greater,
            TokenKind::Ident("g".to_owned()),
            TokenKind::Plus,
            TokenKind::Minus,
            TokenKind::Star,
            TokenKind::Slash,
            TokenKind::LParen,
            TokenKind::RParen,
            TokenKind::Semi,
            TokenKind::Assign,
            TokenKind::Or,
            TokenKind::And,
            TokenKind::Opt,
            TokenKind::Alt,
            TokenKind::Const,
        ]
    );
}

#[test]
fn keyword_prefix_is_a_name() {
    assert_eq!(
        all_kinds("constant order_1 alter"),
        vec![
            TokenKind::Ident("constant".to_owned()),
            TokenKind::Ident("order_1".to_owned()),
            TokenKind::Ident("alter".to_owned()),
        ]
    );
}

#[test]
fn raw_lexer_merges_nothing_and_tracks_rows() {
    let mut lexer = Lexer::new("a  \n\nb");
    let a = lexer.next().unwrap();
    assert_eq!(a.kind, TokenKind::Ident("a".to_owned()));
    assert_eq!(lexer.next().unwrap().kind, TokenKind::Whitespace(1));
    assert_eq!(lexer.next().unwrap().kind, TokenKind::Whitespace(1));
    let newlines = lexer.next().unwrap();
    assert_eq!(newlines.kind, TokenKind::EndLine);
    assert_eq!(newlines.span.lo, SourceLocation { row: 0, column: 3 });
    assert_eq!(newlines.span.hi, SourceLocation { row: 2, column: 0 });
    let b = lexer.next().unwrap();
    assert_eq!(b.span.lo, SourceLocation { row: 2, column: 0 });
    assert_eq!(b.span.hi, SourceLocation { row: 2, column: 1 });
    assert!(lexer.next().is_none());
}

#[test]
fn whitespace_run_is_one_token_of_its_width() {
    let a = Token::new(TokenKind::Whitespace(2), SourceLocation { row: 0, column: 0 }, SourceLocation { row: 0, column: 2 });
    let b = Token::new(TokenKind::Whitespace(3), SourceLocation { row: 0, column: 2 }, SourceLocation { row: 0, column: 5 });
    let merged = a.try_merge_whitespace(&b).unwrap();
    assert_eq!(merged.kind, TokenKind::Whitespace(5));
    assert_eq!(merged.span.lo, SourceLocation { row: 0, column: 0 });
    assert_eq!(merged.span.hi, SourceLocation { row: 0, column: 5 });
    let c = Token::new(TokenKind::Plus, SourceLocation { row: 0, column: 5 }, SourceLocation { row: 0, column: 6 });
    assert!(a.try_merge_whitespace(&c).is_none());
    assert!(a.is_whitespace());
    assert!(!c.is_whitespace());
}

#[test]
fn integer_values() {
    assert_eq!(all_kinds("0 007 9223372036854775807"), vec![
        TokenKind::Integer(0),
        TokenKind::Integer(7),
        TokenKind::Integer(9223372036854775807),
    ]);
}

#[test]
fn lexable_inputs() {
    assert!(is_lexable("const a = 1 # é\n"));
    assert!(is_lexable("9223372036854775807"));
    assert!(!is_lexable("9223372036854775808"));
    assert!(!is_lexable("a $ b"));
    assert!(!is_lexable("a ! b"));
    assert!(is_lexable("a != b"));
    assert!(!is_lexable("é"));
    assert!(is_lexable(""));
}

#[test]
fn tabs_and_carriage_returns_are_whitespace() {
    assert_eq!(
        all_kinds("a\r\n\tb\r\n"),
        vec![
            TokenKind::Ident("a".to_owned()),
            TokenKind::Indent,
            TokenKind::Ident("b".to_owned()),
            TokenKind::Deindent,
        ]
    );
}
