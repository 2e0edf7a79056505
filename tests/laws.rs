use odl::constant::{ConstantBody, ConstantDeclaration};
use odl::declaration::Declaration;
use odl::document::Document;
use odl::expression::{Expression, ExpressionEnum, Literal};
use odl::option::{OptionDeclaration, OptionField};
use odl::parser::Parser;
use odl::token::SourceLocation;

fn shape_of_expression(e: &Expression) -> String {
    match &e.content {
        ExpressionEnum::Lit(l) => format!("{:?}", l),
        ExpressionEnum::Una(k, x) => format!("({:?} {})", k, shape_of_expression(x)),
        ExpressionEnum::Bin(k, l, r) => {
            format!("({:?} {} {})", k, shape_of_expression(l), shape_of_expression(r))
        }
    }
}

fn shape_of_constant(c: &ConstantDeclaration) -> String {
    match &c.body {
        ConstantBody::Direct(e) => format!("const {} = {}", c.name, shape_of_expression(e)),
        ConstantBody::Content(cs) => {
            let inner: Vec<String> = cs.iter().map(shape_of_constant).collect();
            format!("const {} [{}]", c.name, inner.join(", "))
        }
    }
}

fn shape_of_option(o: &OptionDeclaration) -> String {
    let inner: Vec<String> = o
        .fields
        .iter()
        .map(|f| match f {
            OptionField::SubOption(s) => shape_of_option(s),
            OptionField::Const(c) => shape_of_constant(c),
            OptionField::Alt(a) => format!("alt {}", a.name),
        })
        .collect();
    format!("opt {} [{}]", o.name, inner.join(", "))
}

fn shape(d: &Document) -> Vec<String> {
    d.entries
        .iter()
        .map(|e| match e {
            Declaration::Const(c) => shape_of_constant(c),
            Declaration::Opt(o) => shape_of_option(o),
            Declaration::Alt(a) => {
                let inner: Vec<String> = a.alternatives.iter().map(shape_of_option).collect();
                format!("alt {} [{}]", a.name, inner.join(", "))
            }
            Declaration::Choice(c) => format!("choice {}", c.symbol),
        })
        .collect()
}

fn le(a: SourceLocation, b: SourceLocation) -> bool {
    a.row < b.row || (a.row == b.row && a.column <= b.column)
}

fn check_expression_spans(e: &Expression, end: SourceLocation) {
    assert!(le(e.span.lo, e.span.hi));
    assert!(le(e.span.hi, end));
    match &e.content {
        ExpressionEnum::Lit(_) => {}
        ExpressionEnum::Una(_, x) => check_expression_spans(x, end),
        ExpressionEnum::Bin(_, l, r) => {
            check_expression_spans(l, end);
            check_expression_spans(r, end);
        }
    }
}

#[test]
fn spans_lie_inside_the_input() {
    let text = "const a = (1 + 2) * -3\nconst b\n c = x or y\n";
    let end = SourceLocation { row: 3, column: 0 };
    let document = Parser::parse(text).unwrap();
    for entry in &document.entries {
        if let Declaration::Const(c) = entry {
            assert!(le(c.span.lo, c.span.hi));
            assert!(le(c.span.hi, end));
            match &c.body {
                ConstantBody::Direct(e) => check_expression_spans(e, end),
                ConstantBody::Content(cs) => {
                    for child in cs {
                        if let ConstantBody::Direct(e) = &child.body {
                            check_expression_spans(e, end);
                        }
                    }
                }
            }
        }
    }
}

#[test]
fn comment_content_does_not_matter() {
    let a = Parser::parse("const a = 1 # first\nopt b # x\n c\n").unwrap();
    let b = Parser::parse("const a = 1 # other words\nopt b # yz = 5\n c\n").unwrap();
    assert_eq!(a, b);
    assert_eq!(shape(&a), shape(&b));
}

#[test]
fn whitespace_inside_a_line_does_not_matter() {
    let a = Parser::parse("const a = 1 + 2\nopt b\n const c = (x)\n").unwrap();
    let b = Parser::parse("const   a=1   +\t2\nopt  b\n const c   =(  x )\n").unwrap();
    assert_eq!(shape(&a), shape(&b));
}

#[test]
fn integers_read_back() {
    for n in [0u64, 1, 42, 1000000, 9223372036854775807] {
        let text = format!("const x = {}", n);
        let document = Parser::parse(&text).unwrap();
        match &document.entries[0] {
            Declaration::Const(c) => match &c.body {
                ConstantBody::Direct(e) => {
                    assert_eq!(*e.literal().unwrap(), Literal::Integer(n as i64));
                }
                _ => panic!("not direct"),
            },
            _ => panic!("not a constant"),
        }
    }
}
