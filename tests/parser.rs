use odl::constant::ConstantBody;
use odl::declaration::Declaration;
use odl::expression::{BinaryExpressionKind, Expression, ExpressionEnum, Literal, UnaryExpressionKind};
use odl::option::OptionField;
use odl::parser::Parser;

#[test]
fn integer_test() {
    let mut parser = Parser::new("65").unwrap();
    assert!(matches!(parser.integer(), Ok(Literal::Integer(65))));
}

#[test]
fn indentifier_test() {
    let mut parser = Parser::new("asd").unwrap();
    assert!(parser.identifier().unwrap() == "asd");
}

#[test]
fn int_expression() {
    let mut parser = Parser::new("43 + 53").unwrap();
    let maybe_expression = parser.expression();
    assert!(maybe_expression.is_ok());
    let expression = maybe_expression.unwrap();
    assert!(expression.is_binary());
    assert_eq!(*expression.binary_kind().unwrap(), BinaryExpressionKind::Add);
    let rhs = expression.right();
    let lhs = expression.left();
    assert!(rhs.unwrap().is_literal());
    assert!(lhs.unwrap().is_literal());
    assert_eq!(*lhs.unwrap().literal().unwrap(), Literal::Integer(43));
    assert_eq!(*rhs.unwrap().literal().unwrap(), Literal::Integer(53));
    assert_eq!(expression.span().lo.column, 0);
    assert_eq!(expression.span().hi.column, 7);
}

#[test]
fn equal_expression() {
    let mut parser = Parser::new("43 == 53").unwrap();
    let maybe_expression = parser.expression();
    assert!(maybe_expression.is_ok());
    let expression = maybe_expression.unwrap();
    assert!(expression.is_binary());
    assert_eq!(*expression.binary_kind().unwrap(), BinaryExpressionKind::Equal);
    let rhs = expression.right();
    let lhs = expression.left();
    assert!(rhs.unwrap().is_literal());
    assert!(lhs.unwrap().is_literal());
    assert_eq!(*lhs.unwrap().literal().unwrap(), Literal::Integer(43));
    assert_eq!(*rhs.unwrap().literal().unwrap(), Literal::Integer(53));
    assert_eq!(expression.span().lo.column, 0);
    assert_eq!(expression.span().hi.column, 8);
}

#[test]
fn and_expression() {
    let mut parser = Parser::new("43 and 53").unwrap();
    let maybe_expression = parser.expression();
    assert!(maybe_expression.is_ok());
    let expression = maybe_expression.unwrap();
    assert!(expression.is_binary());
    assert_eq!(*expression.binary_kind().unwrap(), BinaryExpressionKind::And);
    let rhs = expression.right();
    let lhs = expression.left();
    assert!(rhs.unwrap().is_literal());
    assert!(lhs.unwrap().is_literal());
    assert_eq!(*lhs.unwrap().literal().unwrap(), Literal::Integer(43));
    assert_eq!(*rhs.unwrap().literal().unwrap(), Literal::Integer(53));
    assert_eq!(expression.span().lo.column, 0);
    assert_eq!(expression.span().hi.column, 9);
}

#[test]
fn les_expression() {
    let mut parser = Parser::new("43 < 53").unwrap();
    let maybe_expression = parser.expression();
    assert!(maybe_expression.is_ok());
    let expression = maybe_expression.unwrap();
    assert!(expression.is_binary());
    assert_eq!(*expression.binary_kind().unwrap(), BinaryExpressionKind::Less);
    let rhs = expression.right();
    let lhs = expression.left();
    assert!(rhs.unwrap().is_literal());
    assert!(lhs.unwrap().is_literal());
    assert_eq!(*lhs.unwrap().literal().unwrap(), Literal::Integer(43));
    assert_eq!(*rhs.unwrap().literal().unwrap(), Literal::Integer(53));
    assert_eq!(expression.span().lo.column, 0);
    assert_eq!(expression.span().hi.column, 7);
}

#[test]
fn par_expression() {
    let mut parser = Parser::new("(43 >= 53)").unwrap();
    let maybe_expression = parser.expression();
    assert!(maybe_expression.is_ok());
    let expression = maybe_expression.unwrap();
    assert!(expression.is_binary());
    assert_eq!(*expression.binary_kind().unwrap(), BinaryExpressionKind::GreaterEqual);
    let rhs = expression.right();
    let lhs = expression.left();
    assert!(rhs.unwrap().is_literal());
    assert!(lhs.unwrap().is_literal());
    assert_eq!(*lhs.unwrap().literal().unwrap(), Literal::Integer(43));
    assert_eq!(*rhs.unwrap().literal().unwrap(), Literal::Integer(53));
    assert_eq!(expression.span().lo.column, 0);
    assert_eq!(expression.span().hi.column, 10);
}

#[test]
fn constant_declaration() {
    let mut parser = Parser::new("const asd = (43 >= 53)").unwrap();
    let maybe_declaration = parser.constant_declaration();
    assert!(maybe_declaration.is_ok());
    let declaration = maybe_declaration.unwrap();
    assert_eq!(declaration.name(), "asd");
    let expression = declaration.get_initializer().unwrap();
    assert!(expression.is_binary());
    assert_eq!(*expression.binary_kind().unwrap(), BinaryExpressionKind::GreaterEqual);
    let rhs = expression.right();
    let lhs = expression.left();
    assert!(rhs.unwrap().is_literal());
    assert!(lhs.unwrap().is_literal());
    assert_eq!(*lhs.unwrap().literal().unwrap(), Literal::Integer(43));
    assert_eq!(*rhs.unwrap().literal().unwrap(), Literal::Integer(53));
}

#[test]
fn constant_declaration_multiline() {
    let mut parser = Parser::new("const asd\n rasd = 4\n\n").unwrap();
    let maybe_declaration = parser.constant_declaration();
    assert!(maybe_declaration.is_ok());
    let declaration = maybe_declaration.unwrap();
    assert_eq!(declaration.name(), "asd");
    let field = declaration.get_field(0);
    assert_eq!(field.unwrap().name(), "rasd");
}

#[test]
fn empty_alternative_declaration() {
    let mut parser = Parser::new("alt asd").unwrap();
    let maybe_declaration = parser.alternative_declaration();
    assert!(maybe_declaration.is_ok());
    let declaration = maybe_declaration.unwrap();
    assert_eq!(declaration.name(), "asd");
}

#[test]
fn literal_span() {
    let mut parser = Parser::new("65").unwrap();
    let expression = parser.expression().unwrap();
    assert_eq!(*expression.literal().unwrap(), Literal::Integer(65));
    assert_eq!((expression.span.lo.row, expression.span.lo.column), (0, 0));
    assert_eq!((expression.span.hi.row, expression.span.hi.column), (0, 2));
}

#[test]
fn multiline_constant_body() {
    let mut parser = Parser::new("const asd\n rasd = 4\n\n").unwrap();
    let declaration = parser.constant_declaration().unwrap();
    let fields = declaration.get_fields().unwrap();
    assert_eq!(fields.len(), 1);
    assert_eq!(fields[0].name, "rasd");
    let value = fields[0].get_initializer().unwrap();
    assert_eq!(*value.literal().unwrap(), Literal::Integer(4));
}

#[test]
fn alternative_without_options() {
    let document = Parser::parse("alt asd").unwrap();
    assert_eq!(document.entries.len(), 1);
    match &document.entries[0] {
        Declaration::Alt(a) => {
            assert_eq!(a.name, "asd");
            assert!(a.alternatives.is_empty());
        }
        _ => panic!("not an alternative"),
    }
}

#[test]
fn operators_group_to_the_right() {
    let mut parser = Parser::new("1 - 2 - 3").unwrap();
    let e = parser.expression().unwrap();
    assert_eq!(*e.binary_kind().unwrap(), BinaryExpressionKind::Sub);
    assert_eq!(*e.left().unwrap().literal().unwrap(), Literal::Integer(1));
    let right = e.right().unwrap();
    assert_eq!(*right.binary_kind().unwrap(), BinaryExpressionKind::Sub);
    assert_eq!(right.span().lo.column, 4);
    assert_eq!(right.span().hi.column, 9);
}

#[test]
fn precedence_levels() {
    let mut parser = Parser::new("a or b and c == d < e + f * g").unwrap();
    let e = parser.expression().unwrap();
    assert_eq!(*e.binary_kind().unwrap(), BinaryExpressionKind::Or);
    let and = e.right().unwrap();
    assert_eq!(*and.binary_kind().unwrap(), BinaryExpressionKind::And);
    let eq = and.right().unwrap();
    assert_eq!(*eq.binary_kind().unwrap(), BinaryExpressionKind::Equal);
    let less = eq.right().unwrap();
    assert_eq!(*less.binary_kind().unwrap(), BinaryExpressionKind::Less);
    let add = less.right().unwrap();
    assert_eq!(*add.binary_kind().unwrap(), BinaryExpressionKind::Add);
    let mult = add.right().unwrap();
    assert_eq!(*mult.binary_kind().unwrap(), BinaryExpressionKind::Mult);
    assert_eq!(*mult.left().unwrap().literal().unwrap(), Literal::Ident("f".to_owned()));
}

#[test]
fn different_has_its_own_kind() {
    let mut parser = Parser::new("1 != 2").unwrap();
    let e = parser.expression().unwrap();
    assert_eq!(*e.binary_kind().unwrap(), BinaryExpressionKind::Different);
}

#[test]
fn unary_minus_is_negation_and_plus_is_nothing() {
    let mut parser = Parser::new("-x").unwrap();
    let e = parser.expression().unwrap();
    assert_eq!(*e.unary_kind().unwrap(), UnaryExpressionKind::Neg);
    assert_eq!(e.arity(), 1);
    assert_eq!(e.span().hi.column, 2);
    let mut parser = Parser::new("+7").unwrap();
    let e = parser.expression().unwrap();
    assert_eq!(*e.literal().unwrap(), Literal::Integer(7));
    assert_eq!(e.span().lo.column, 1);
}

#[test]
fn missing_operand_is_unexpected_token() {
    let mut parser = Parser::new("1 + )").unwrap();
    let error = parser.expression().unwrap_err();
    let unexpected = error.get_unexpected_token().unwrap();
    assert_eq!(unexpected.token.span.lo.column, 4);
}

#[test]
fn missing_paren_is_unexpected_token() {
    let mut parser = Parser::new("(1 2").unwrap();
    let error = parser.expression().unwrap_err();
    let unexpected = error.get_unexpected_token().unwrap();
    assert_eq!(unexpected.token.span.lo.column, 3);
}

#[test]
fn input_ending_early_is_end_of_token_stream() {
    let mut parser = Parser::new("const").unwrap();
    assert!(parser.constant_declaration().unwrap_err().is_end_of_token_stream());
    assert!(Parser::parse("const x =").unwrap_err().is_end_of_token_stream());
}

#[test]
fn bad_indentation_stops_the_parse() {
    let error = Parser::parse("opt a\n  b\n c\n").unwrap_err();
    assert!(error.is_indentation_error());
}

#[test]
fn unknown_declaration_is_unexpected_token() {
    let mut parser = Parser::new("x = 1").unwrap();
    let error = parser.declaration().unwrap_err();
    assert!(error.is_unexpected_token_error());
    assert_eq!(error.get_unexpected_token().unwrap().token.span.lo.column, 0);
}

#[test]
fn option_with_fields() {
    let text = "opt net\n const port = 80\n tls\n  const on = 1\n";
    let document = Parser::parse(text).unwrap();
    assert_eq!(document.entries.len(), 1);
    let option = match &document.entries[0] {
        Declaration::Opt(o) => o,
        _ => panic!("not an option"),
    };
    assert_eq!(option.name, "net");
    assert_eq!(option.fields.len(), 2);
    match option.get_field(0).unwrap() {
        OptionField::Const(c) => {
            assert_eq!(c.name, "port");
            assert_eq!((c.span.lo.row, c.span.lo.column), (1, 1));
        }
        _ => panic!("not a constant"),
    }
    match option.get_field(1).unwrap() {
        OptionField::SubOption(o) => {
            assert_eq!(o.name, "tls");
            assert_eq!(o.fields.len(), 1);
        }
        _ => panic!("not an option"),
    }
    assert_eq!((option.span.lo.row, option.span.lo.column), (0, 0));
}

#[test]
fn alternative_with_options() {
    let document = Parser::parse("alt mode\n fast\n slow\n  const level = 2\n").unwrap();
    match &document.entries[0] {
        Declaration::Alt(a) => {
            assert_eq!(a.alternatives.len(), 2);
            assert_eq!(a.get_field(0).unwrap().name, "fast");
            assert_eq!(a.get_field(1).unwrap().fields.len(), 1);
        }
        _ => panic!("not an alternative"),
    }
}

#[test]
fn document_keeps_source_order() {
    let document = Parser::parse("const a = 1\nopt b\nalt c\n").unwrap();
    let names: Vec<String> = document.entries.iter().map(|d| d.name()).collect();
    assert_eq!(names, vec!["a".to_owned(), "b".to_owned(), "c".to_owned()]);
    assert!(document.type_check().is_ok());
}

#[test]
fn empty_document() {
    let document = Parser::parse("# nothing here\n\n").unwrap();
    assert!(document.entries.is_empty());
}

#[test]
fn constant_spans_start_at_keyword() {
    let document = Parser::parse("\nconst asd = (43 >= 53)").unwrap();
    match &document.entries[0] {
        Declaration::Const(c) => {
            assert_eq!((c.span.lo.row, c.span.lo.column), (1, 0));
            assert_eq!((c.span.hi.row, c.span.hi.column), (1, 22));
            match &c.body {
                ConstantBody::Direct(e) => {
                    assert_eq!((e.span.lo.column, e.span.hi.column), (12, 22));
                }
                _ => panic!("not direct"),
            }
        }
        _ => panic!("not a constant"),
    }
}

#[test]
fn peek_and_next() {
    let mut parser = Parser::new("a").unwrap();
    assert!(parser.peek().is_some());
    assert!(parser.next().is_ok());
    assert!(parser.peek().is_none());
    assert!(parser.next().unwrap_err().is_end_of_token_stream());
}

#[test]
fn expression_constructors() {
    let span = odl::token::Span::new();
    let e = Expression::add(Expression::integer(1, span), Expression::ident("x".to_owned(), span), span);
    assert_eq!(e.arity(), 2);
    assert!(matches!(e.content, ExpressionEnum::Bin(BinaryExpressionKind::Add, _, _)));
    let n = Expression::not(Expression::str("s".to_owned(), span), span);
    assert_eq!(*n.unary_kind().unwrap(), UnaryExpressionKind::Not);
    assert_eq!(*n.left().unwrap().literal().unwrap(), Literal::Str("s".to_owned()));
    assert!(n.right().is_none());
}

#[test]
fn empty_blocks_are_refused() {
    let error = Parser::parse("const a\n \n").unwrap_err();
    let unexpected = error.get_unexpected_token().unwrap();
    assert_eq!(unexpected.token.kind, odl::token::TokenKind::Deindent);
    assert!(Parser::parse("opt a\n \n").unwrap_err().is_unexpected_token_error());
    assert!(Parser::parse("alt a\n \n").unwrap_err().is_unexpected_token_error());
}
