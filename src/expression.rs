use vstd::prelude::*;

use crate::token::Span;

verus! {

/// A literal value. String literals are part of the tree though the lexer
/// does not produce them; `Ident` is a reference to a name.
#[derive(Debug, Clone, PartialEq)]
pub enum Literal {
    Integer(i64),
    Str(String),
    Ident(String),
}

#[derive(Debug, Clone, PartialEq)]
pub enum BinaryExpressionKind {
    Add,
    Sub,
    Mult,
    Div,
    Or,
    And,
    Equal,
    Less,
    LessEqual,
    Greater,
    GreaterEqual,
    Different,
}

/// `Neg` is arithmetic negation, written `-`; `Not` is logical negation,
/// which has no syntax of its own yet.
#[derive(Debug, Clone, PartialEq)]
pub enum UnaryExpressionKind {
    Neg,
    Not,
}

#[derive(Debug, PartialEq)]
pub enum ExpressionEnum {
    Lit(Literal),
    Una(UnaryExpressionKind, Box<Expression>),
    Bin(BinaryExpressionKind, Box<Expression>, Box<Expression>),
}

#[derive(Debug, PartialEq)]
pub struct Expression {
    pub content: ExpressionEnum,
    pub span: Span,
}

impl ExpressionEnum {
    pub fn new_bin(kind: BinaryExpressionKind, lhs: Expression, rhs: Expression) -> (r: ExpressionEnum)
        ensures
            r == ExpressionEnum::Bin(kind, Box::new(lhs), Box::new(rhs)),
    {
        ExpressionEnum::Bin(kind, Box::new(lhs), Box::new(rhs))
    }

    pub fn add(lhs: Expression, rhs: Expression) -> (r: ExpressionEnum)
        ensures
            r == ExpressionEnum::Bin(BinaryExpressionKind::Add, Box::new(lhs), Box::new(rhs)),
    {
        ExpressionEnum::new_bin(BinaryExpressionKind::Add, lhs, rhs)
    }

    pub fn sub(lhs: Expression, rhs: Expression) -> (r: ExpressionEnum)
        ensures
            r == ExpressionEnum::Bin(BinaryExpressionKind::Sub, Box::new(lhs), Box::new(rhs)),
    {
        ExpressionEnum::new_bin(BinaryExpressionKind::Sub, lhs, rhs)
    }

    pub fn mult(lhs: Expression, rhs: Expression) -> (r: ExpressionEnum)
        ensures
            r == ExpressionEnum::Bin(BinaryExpressionKind::Mult, Box::new(lhs), Box::new(rhs)),
    {
        ExpressionEnum::new_bin(BinaryExpressionKind::Mult, lhs, rhs)
    }

    pub fn div(lhs: Expression, rhs: Expression) -> (r: ExpressionEnum)
        ensures
            r == ExpressionEnum::Bin(BinaryExpressionKind::Div, Box::new(lhs), Box::new(rhs)),
    {
        ExpressionEnum::new_bin(BinaryExpressionKind::Div, lhs, rhs)
    }

    pub fn or(lhs: Expression, rhs: Expression) -> (r: ExpressionEnum)
        ensures
            r == ExpressionEnum::Bin(BinaryExpressionKind::Or, Box::new(lhs), Box::new(rhs)),
    {
        ExpressionEnum::new_bin(BinaryExpressionKind::Or, lhs, rhs)
    }

    pub fn and(lhs: Expression, rhs: Expression) -> (r: ExpressionEnum)
        ensures
            r == ExpressionEnum::Bin(BinaryExpressionKind::And, Box::new(lhs), Box::new(rhs)),
    {
        ExpressionEnum::new_bin(BinaryExpressionKind::And, lhs, rhs)
    }

    pub fn equal(lhs: Expression, rhs: Expression) -> (r: ExpressionEnum)
        ensures
            r == ExpressionEnum::Bin(BinaryExpressionKind::Equal, Box::new(lhs), Box::new(rhs)),
    {
        ExpressionEnum::new_bin(BinaryExpressionKind::Equal, lhs, rhs)
    }

    pub fn different(lhs: Expression, rhs: Expression) -> (r: ExpressionEnum)
        ensures
            r == ExpressionEnum::Bin(BinaryExpressionKind::Different, Box::new(lhs), Box::new(rhs)),
    {
        ExpressionEnum::new_bin(BinaryExpressionKind::Different, lhs, rhs)
    }

    pub fn less(lhs: Expression, rhs: Expression) -> (r: ExpressionEnum)
        ensures
            r == ExpressionEnum::Bin(BinaryExpressionKind::Less, Box::new(lhs), Box::new(rhs)),
    {
        ExpressionEnum::new_bin(BinaryExpressionKind::Less, lhs, rhs)
    }

    pub fn less_equal(lhs: Expression, rhs: Expression) -> (r: ExpressionEnum)
        ensures
            r == ExpressionEnum::Bin(BinaryExpressionKind::LessEqual, Box::new(lhs), Box::new(rhs)),
    {
        ExpressionEnum::new_bin(BinaryExpressionKind::LessEqual, lhs, rhs)
    }

    pub fn greater(lhs: Expression, rhs: Expression) -> (r: ExpressionEnum)
        ensures
            r == ExpressionEnum::Bin(BinaryExpressionKind::Greater, Box::new(lhs), Box::new(rhs)),
    {
        ExpressionEnum::new_bin(BinaryExpressionKind::Greater, lhs, rhs)
    }

    pub fn greater_equal(lhs: Expression, rhs: Expression) -> (r: ExpressionEnum)
        ensures
            r == ExpressionEnum::Bin(BinaryExpressionKind::GreaterEqual, Box::new(lhs), Box::new(rhs)),
    {
        ExpressionEnum::new_bin(BinaryExpressionKind::GreaterEqual, lhs, rhs)
    }

    pub fn ident(s: String) -> (r: ExpressionEnum)
        ensures
            r == ExpressionEnum::Lit(Literal::Ident(s)),
    {
        ExpressionEnum::Lit(Literal::Ident(s))
    }

    pub fn new_una(kind: UnaryExpressionKind, lhs: Expression) -> (r: ExpressionEnum)
        ensures
            r == ExpressionEnum::Una(kind, Box::new(lhs)),
    {
        ExpressionEnum::Una(kind, Box::new(lhs))
    }

    /// Arithmetic negation of `lhs`.
    pub fn neg(lhs: Expression) -> (r: ExpressionEnum)
        ensures
            r == ExpressionEnum::Una(UnaryExpressionKind::Neg, Box::new(lhs)),
    {
        ExpressionEnum::new_una(UnaryExpressionKind::Neg, lhs)
    }

    /// Logical negation of `lhs`.
    pub fn not(lhs: Expression) -> (r: ExpressionEnum)
        ensures
            r == ExpressionEnum::Una(UnaryExpressionKind::Not, Box::new(lhs)),
    {
        ExpressionEnum::new_una(UnaryExpressionKind::Not, lhs)
    }

    pub fn new_lit(lit: Literal) -> (r: ExpressionEnum)
        ensures
            r == ExpressionEnum::Lit(lit),
    {
        ExpressionEnum::Lit(lit)
    }

    pub fn str(s: String) -> (r: ExpressionEnum)
        ensures
            r == ExpressionEnum::Lit(Literal::Str(s)),
    {
        ExpressionEnum::Lit(Literal::Str(s))
    }

    pub fn integer(i: i64) -> (r: ExpressionEnum)
        ensures
            r == ExpressionEnum::Lit(Literal::Integer(i)),
    {
        ExpressionEnum::Lit(Literal::Integer(i))
    }

    /// Number of operands: 0, 1 or 2.
    pub fn arity(&self) -> (r: usize)
        ensures
            r == match self {
                ExpressionEnum::Lit(_) => 0usize,
                ExpressionEnum::Una(_, _) => 1usize,
                ExpressionEnum::Bin(_, _, _) => 2usize,
            },
    {
        match self {
            ExpressionEnum::Lit(_) => 0,
            ExpressionEnum::Una(_, _) => 1,
            ExpressionEnum::Bin(_, _, _) => 2,
        }
    }

    pub fn is_literal(&self) -> (r: bool)
        ensures
            r == self is Lit,
    {
        match self {
            ExpressionEnum::Lit(_) => true,
            _ => false,
        }
    }

    pub fn is_unary(&self) -> (r: bool)
        ensures
            r == self is Una,
    {
        match self {
            ExpressionEnum::Una(_, _) => true,
            _ => false,
        }
    }

    pub fn is_binary(&self) -> (r: bool)
        ensures
            r == self is Bin,
    {
        match self {
            ExpressionEnum::Bin(_, _, _) => true,
            _ => false,
        }
    }

    /// The operand of a unary expression, or the left operand of a binary one.
    pub fn left(&self) -> (r: Option<&Expression>)
        ensures
            r == match self {
                ExpressionEnum::Lit(_) => None,
                ExpressionEnum::Una(_, e) => Some(&**e),
                ExpressionEnum::Bin(_, l, _) => Some(&**l),
            },
    {
        match self {
            ExpressionEnum::Lit(_) => None,
            ExpressionEnum::Una(_, e) => Some(&**e),
            ExpressionEnum::Bin(_, l, _) => Some(&**l),
        }
    }

    /// The right operand of a binary expression.
    pub fn right(&self) -> (r: Option<&Expression>)
        ensures
            r == match self {
                ExpressionEnum::Bin(_, _, rhs) => Some(&**rhs),
                _ => None,
            },
    {
        match self {
            ExpressionEnum::Bin(_, _, rhs) => Some(&**rhs),
            _ => None,
        }
    }

    pub fn literal(&self) -> (r: Option<&Literal>)
        ensures
            r == match self {
                ExpressionEnum::Lit(l) => Some(l),
                _ => None,
            },
    {
        match self {
            ExpressionEnum::Lit(l) => Some(l),
            _ => None,
        }
    }

    pub fn binary_kind(&self) -> (r: Option<&BinaryExpressionKind>)
        ensures
            r == match self {
                ExpressionEnum::Bin(k, _, _) => Some(k),
                _ => None,
            },
    {
        match self {
            ExpressionEnum::Bin(k, _, _) => Some(k),
            _ => None,
        }
    }

    pub fn unary_kind(&self) -> (r: Option<&UnaryExpressionKind>)
        ensures
            r == match self {
                ExpressionEnum::Una(k, _) => Some(k),
                _ => None,
            },
    {
        match self {
            ExpressionEnum::Una(k, _) => Some(k),
            _ => None,
        }
    }
}

impl Expression {
    pub fn new_bin(kind: BinaryExpressionKind, lhs: Expression, rhs: Expression, span: Span) -> (r:
        Expression)
        ensures
            r == (Expression { content: ExpressionEnum::Bin(kind, Box::new(lhs), Box::new(rhs)), span }),
    {
        Expression { content: ExpressionEnum::new_bin(kind, lhs, rhs), span }
    }

    pub fn add(lhs: Expression, rhs: Expression, span: Span) -> (r: Expression)
        ensures
            r == (Expression {
                content: ExpressionEnum::Bin(BinaryExpressionKind::Add, Box::new(lhs), Box::new(rhs)),
                span,
            }),
    {
        Expression { content: ExpressionEnum::add(lhs, rhs), span }
    }

    pub fn sub(lhs: Expression, rhs: Expression, span: Span) -> (r: Expression)
        ensures
            r == (Expression {
                content: ExpressionEnum::Bin(BinaryExpressionKind::Sub, Box::new(lhs), Box::new(rhs)),
                span,
            }),
    {
        Expression { content: ExpressionEnum::sub(lhs, rhs), span }
    }

    pub fn mult(lhs: Expression, rhs: Expression, span: Span) -> (r: Expression)
        ensures
            r == (Expression {
                content: ExpressionEnum::Bin(BinaryExpressionKind::Mult, Box::new(lhs), Box::new(rhs)),
                span,
            }),
    {
        Expression { content: ExpressionEnum::mult(lhs, rhs), span }
    }

    pub fn div(lhs: Expression, rhs: Expression, span: Span) -> (r: Expression)
        ensures
            r == (Expression {
                content: ExpressionEnum::Bin(BinaryExpressionKind::Div, Box::new(lhs), Box::new(rhs)),
                span,
            }),
    {
        Expression { content: ExpressionEnum::div(lhs, rhs), span }
    }

    pub fn or(lhs: Expression, rhs: Expression, span: Span) -> (r: Expression)
        ensures
            r == (Expression {
                content: ExpressionEnum::Bin(BinaryExpressionKind::Or, Box::new(lhs), Box::new(rhs)),
                span,
            }),
    {
        Expression { content: ExpressionEnum::or(lhs, rhs), span }
    }

    pub fn and(lhs: Expression, rhs: Expression, span: Span) -> (r: Expression)
        ensures
            r == (Expression {
                content: ExpressionEnum::Bin(BinaryExpressionKind::And, Box::new(lhs), Box::new(rhs)),
                span,
            }),
    {
        Expression { content: ExpressionEnum::and(lhs, rhs), span }
    }

    pub fn equal(lhs: Expression, rhs: Expression, span: Span) -> (r: Expression)
        ensures
            r == (Expression {
                content: ExpressionEnum::Bin(BinaryExpressionKind::Equal, Box::new(lhs), Box::new(rhs)),
                span,
            }),
    {
        Expression { content: ExpressionEnum::equal(lhs, rhs), span }
    }

    pub fn different(lhs: Expression, rhs: Expression, span: Span) -> (r: Expression)
        ensures
            r == (Expression {
                content: ExpressionEnum::Bin(BinaryExpressionKind::Different, Box::new(lhs), Box::new(rhs)),
                span,
            }),
    {
        Expression { content: ExpressionEnum::different(lhs, rhs), span }
    }

    pub fn less(lhs: Expression, rhs: Expression, span: Span) -> (r: Expression)
        ensures
            r == (Expression {
                content: ExpressionEnum::Bin(BinaryExpressionKind::Less, Box::new(lhs), Box::new(rhs)),
                span,
            }),
    {
        Expression { content: ExpressionEnum::less(lhs, rhs), span }
    }

    pub fn less_equal(lhs: Expression, rhs: Expression, span: Span) -> (r: Expression)
        ensures
            r == (Expression {
                content: ExpressionEnum::Bin(BinaryExpressionKind::LessEqual, Box::new(lhs), Box::new(rhs)),
                span,
            }),
    {
        Expression { content: ExpressionEnum::less_equal(lhs, rhs), span }
    }

    pub fn greater(lhs: Expression, rhs: Expression, span: Span) -> (r: Expression)
        ensures
            r == (Expression {
                content: ExpressionEnum::Bin(BinaryExpressionKind::Greater, Box::new(lhs), Box::new(rhs)),
                span,
            }),
    {
        Expression { content: ExpressionEnum::greater(lhs, rhs), span }
    }

    pub fn greater_equal(lhs: Expression, rhs: Expression, span: Span) -> (r: Expression)
        ensures
            r == (Expression {
                content: ExpressionEnum::Bin(BinaryExpressionKind::GreaterEqual, Box::new(lhs), Box::new(rhs)),
                span,
            }),
    {
        Expression { content: ExpressionEnum::greater_equal(lhs, rhs), span }
    }

    pub fn ident(lhs: String, span: Span) -> (r: Expression)
        ensures
            r == (Expression { content: ExpressionEnum::Lit(Literal::Ident(lhs)), span }),
    {
        Expression { content: ExpressionEnum::ident(lhs), span }
    }

    pub fn new_una(kind: UnaryExpressionKind, lhs: Expression, span: Span) -> (r: Expression)
        ensures
            r == (Expression { content: ExpressionEnum::Una(kind, Box::new(lhs)), span }),
    {
        Expression { content: ExpressionEnum::new_una(kind, lhs), span }
    }

    /// Arithmetic negation of `lhs`.
    pub fn neg(lhs: Expression, span: Span) -> (r: Expression)
        ensures
            r == (Expression {
                content: ExpressionEnum::Una(UnaryExpressionKind::Neg, Box::new(lhs)),
                span,
            }),
    {
        Expression { content: ExpressionEnum::neg(lhs), span }
    }

    /// Logical negation of `lhs`.
    pub fn not(lhs: Expression, span: Span) -> (r: Expression)
        ensures
            r == (Expression {
                content: ExpressionEnum::Una(UnaryExpressionKind::Not, Box::new(lhs)),
                span,
            }),
    {
        Expression { content: ExpressionEnum::not(lhs), span }
    }

    pub fn new_lit(lit: Literal, span: Span) -> (r: Expression)
        ensures
            r == (Expression { content: ExpressionEnum::Lit(lit), span }),
    {
        Expression { content: ExpressionEnum::new_lit(lit), span }
    }

    pub fn str(s: String, span: Span) -> (r: Expression)
        ensures
            r == (Expression { content: ExpressionEnum::Lit(Literal::Str(s)), span }),
    {
        Expression { content: ExpressionEnum::str(s), span }
    }

    pub fn integer(i: i64, span: Span) -> (r: Expression)
        ensures
            r == (Expression { content: ExpressionEnum::Lit(Literal::Integer(i)), span }),
    {
        Expression { content: ExpressionEnum::integer(i), span }
    }

    pub fn arity(&self) -> (r: usize)
        ensures
            r == match self.content {
                ExpressionEnum::Lit(_) => 0usize,
                ExpressionEnum::Una(_, _) => 1usize,
                ExpressionEnum::Bin(_, _, _) => 2usize,
            },
    {
        self.content.arity()
    }

    pub fn is_literal(&self) -> (r: bool)
        ensures
            r == self.content is Lit,
    {
        self.content.is_literal()
    }

    pub fn is_unary(&self) -> (r: bool)
        ensures
            r == self.content is Una,
    {
        self.content.is_unary()
    }

    pub fn is_binary(&self) -> (r: bool)
        ensures
            r == self.content is Bin,
    {
        self.content.is_binary()
    }

    /// The operand of a unary expression, or the left operand of a binary one.
    pub fn left(&self) -> (r: Option<&Expression>)
        ensures
            r == match self.content {
                ExpressionEnum::Lit(_) => None,
                ExpressionEnum::Una(_, e) => Some(&*e),
                ExpressionEnum::Bin(_, l, _) => Some(&*l),
            },
    {
        self.content.left()
    }

    /// The right operand of a binary expression.
    pub fn right(&self) -> (r: Option<&Expression>)
        ensures
            r == match self.content {
                ExpressionEnum::Bin(_, _, rhs) => Some(&*rhs),
                _ => None,
            },
    {
        self.content.right()
    }

    pub fn literal(&self) -> (r: Option<&Literal>)
        ensures
            r == match &self.content {
                ExpressionEnum::Lit(l) => Some(l),
                _ => None,
            },
    {
        self.content.literal()
    }

    pub fn binary_kind(&self) -> (r: Option<&BinaryExpressionKind>)
        ensures
            r == match &self.content {
                ExpressionEnum::Bin(k, _, _) => Some(k),
                _ => None,
            },
    {
        self.content.binary_kind()
    }

    pub fn unary_kind(&self) -> (r: Option<&UnaryExpressionKind>)
        ensures
            r == match &self.content {
                ExpressionEnum::Una(k, _) => Some(k),
                _ => None,
            },
    {
        self.content.unary_kind()
    }

    pub fn span(&self) -> (r: Span)
        ensures
            r == self.span,
    {
        self.span
    }

    pub fn set_span(&mut self, span: Span)
        ensures
            final(self).span == span,
            final(self).content == old(self).content,
    {
        self.span = span;
    }
}

} // verus!
