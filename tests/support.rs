use odl::option::OptionField;
use odl::choice::ChoiseDeclaration;
use odl::expression::Expression;
use odl::declaration::Declaration;
use odl::diagnostic::{did_open, error_to_diagnostic, DiagnosticSeverity};
use odl::error::ParserError;
use odl::option::OptionDeclaration;
use odl::parser::Parser;
use odl::serialization::{indent, EmissionKind, SerializationContext};
use odl::symbol_table::SymbolTable;
use odl::token::{SourceLocation, Span, Token, TokenKind};

fn span(a: usize, b: usize, c: usize, d: usize) -> Span {
    Span { lo: SourceLocation { row: a, column: b }, hi: SourceLocation { row: c, column: d } }
}

#[test]
fn unexpected_token_diagnostic() {
    let token = Token::new(TokenKind::Plus, SourceLocation { row: 2, column: 3 }, SourceLocation { row: 2, column: 4 });
    let d = error_to_diagnostic(ParserError::new_unexpected_token(token));
    assert_eq!(d.range, span(2, 3, 2, 4));
    assert_eq!(d.severity, DiagnosticSeverity::Error);
    assert_eq!(d.source, "odl");
    assert_eq!(d.message, "unexpected token");
}

#[test]
fn indentation_diagnostic() {
    let d = error_to_diagnostic(ParserError::new_indentation_miss_match(span(1, 0, 1, 1), 2, 1));
    assert_eq!(d.range, span(1, 0, 1, 1));
    assert_eq!(d.message, "unexpected indentation: expected 2, found 1");
    let d = error_to_diagnostic(ParserError::new_indentation_miss_match(span(0, 0, 0, 0), 120, -7));
    assert_eq!(d.message, "unexpected indentation: expected 120, found -7");
}

#[test]
fn end_of_input_diagnostic() {
    let d = error_to_diagnostic(ParserError::new_end_of_token_stream(SourceLocation { row: 3, column: 7 }));
    assert_eq!(d.range, span(3, 7, 3, 7));
    assert_eq!(d.message, "unexpected end of input");
}

#[test]
fn end_of_input_points_at_the_end() {
    let error = Parser::parse("const a =  ").unwrap_err();
    let d = error_to_diagnostic(error);
    assert_eq!(d.range, span(0, 11, 0, 11));
}

#[test]
fn did_open_reports_the_first_error() {
    assert!(did_open("const a = 1\n".to_owned()).is_ok());
    let error = did_open("const a = \n".to_owned()).unwrap_err();
    assert!(error.is_end_of_token_stream());
    let error = did_open("opt a\n  b\n c\n".to_owned()).unwrap_err();
    assert!(error.is_indentation_error());
}

#[test]
fn error_accessors() {
    let e = ParserError::new_indentation_miss_match(span(0, 0, 0, 2), 4, 2);
    assert!(e.is_indentation_error());
    assert!(!e.is_unexpected_token_error());
    assert!(!e.is_end_of_token_stream());
    assert_eq!(e.get_indentation_error().unwrap().expected, 4);
    assert!(e.get_unexpected_token().is_none());
    assert!(e.get_end_of_token_stream().is_none());
    let eos = ParserError::new_end_of_token_stream(SourceLocation { row: 0, column: 0 });
    assert!(eos.get_end_of_token_stream().is_some());
}

#[test]
fn symbol_table_scopes() {
    let a = Declaration::Opt(OptionDeclaration::new("a".to_owned(), Span::new()));
    let b = Declaration::Opt(OptionDeclaration::new("b".to_owned(), Span::new()));
    let mut outer = SymbolTable::new();
    outer.insert(&a);
    let mut inner = outer.make_child();
    inner.insert(&b);
    assert_eq!(inner.get(&"a".to_owned()).unwrap().name(), "a");
    assert_eq!(inner.get(&"b".to_owned()).unwrap().name(), "b");
    assert!(inner.get(&"c".to_owned()).is_none());
    let other = SymbolTable::new_from_parent(&outer);
    assert!(other.get(&"b".to_owned()).is_none());
    assert!(other.get(&"a".to_owned()).is_some());
}

#[test]
fn serialization_context() {
    let ctx = SerializationContext::new();
    assert_eq!(ctx.indent, 0);
    let deeper = ctx.indented().emitting_option();
    assert_eq!(deeper.indent, 1);
    assert_eq!(deeper.emission_kind, EmissionKind::Opt);
    assert_eq!(deeper.emitting_const().emission_kind, EmissionKind::Const);
    let mut out = "x".to_owned();
    indent(&mut out, 3);
    assert_eq!(out, "x   ");
}

#[test]
fn type_check_accepts_parsed_documents() {
    let document = Parser::parse("const a = 1\nconst a = 2\n").unwrap();
    assert!(document.type_check().is_ok());
}

#[test]
fn documents_print_back_as_source() {
    let document = Parser::parse("const asd = (43 >= 53)").unwrap();
    assert_eq!(document.to_source(), "const asd = (43 >= 53)\n");
    let document = Parser::parse("opt net\n const port = 80\n tls\n  const on = 1\n").unwrap();
    assert_eq!(document.to_source(), "opt net\n const port = 80\n tls\n  const on = 1\n\n\n");
    let document = Parser::parse("const a\n b = -x * 2\n").unwrap();
    assert_eq!(document.to_source(), "const a\n b = (-x * 2)\n\n");
    let document = Parser::parse("alt m\n f\n").unwrap();
    assert_eq!(document.to_source(), "alt m\n f\n\n\n");
}

#[test]
fn choices_print_their_value() {
    let c = ChoiseDeclaration::new_from_exp("x".to_owned(), Expression::integer(3, Span::new()), Span::new());
    let mut out = String::new();
    c.serialize(&mut out, &SerializationContext::new());
    assert_eq!(out, "x = 3\n");
}

#[test]
fn fields_change_in_place() {
    let mut document = Parser::parse("opt a\n b\n const c = 1\n").unwrap();
    match &mut document.entries[0] {
        Declaration::Opt(o) => {
            match o.get_field_mut(0).unwrap() {
                OptionField::SubOption(b) => b.name = "renamed".to_owned(),
                _ => panic!("not an option"),
            }
            assert!(o.get_field_mut(5).is_none());
            o.get_fields_mut().pop();
            assert_eq!(o.fields.len(), 1);
        }
        _ => panic!("not an option"),
    }
    assert_eq!(document.to_source(), "opt a\n renamed\n\n\n");
    let mut constant = odl::constant::ConstantDeclaration::new("k".to_owned(), Span::new());
    constant.get_fields_mut().unwrap().push(odl::constant::ConstantDeclaration::new("j".to_owned(), Span::new()));
    assert_eq!(constant.get_field_mut(0).unwrap().name, "j");
    assert!(constant.get_field_mut(1).is_none());
    let choice = ChoiseDeclaration::new("s".to_owned(), None, Span::new());
    assert!(choice.value.is_none());
}
