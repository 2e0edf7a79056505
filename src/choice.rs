use vstd::prelude::*;

use crate::expression::Expression;
use crate::token::Span;

verus! {

/// A case of a selection: a symbol, an optional value and nested cases.
/// No syntax produces one yet.
#[derive(Debug, PartialEq)]
pub struct ChoiseDeclaration {
    pub symbol: String,
    pub value: Option<Expression>,
    pub fields: Vec<ChoiseDeclaration>,
    pub span: Span,
}

impl ChoiseDeclaration {
    /// A case with the given value, if any, and without nested cases.
    pub fn new(symbol: String, exp: Option<Expression>, span: Span) -> (r: ChoiseDeclaration)
        ensures
            r.symbol == symbol,
            r.value == exp,
            r.fields@.len() == 0,
            r.span == span,
    {
        ChoiseDeclaration { symbol, value: exp, fields: Vec::new(), span }
    }

    /// A case with a value and without nested cases.
    pub fn new_from_exp(symbol: String, exp: Expression, span: Span) -> (r: ChoiseDeclaration)
        ensures
            r.symbol == symbol,
            r.value == Some(exp),
            r.fields@.len() == 0,
            r.span == span,
    {
        ChoiseDeclaration { symbol, value: Some(exp), fields: Vec::new(), span }
    }

    pub fn set_span(&mut self, span: Span)
        ensures
            final(self).span == span,
            final(self).symbol == old(self).symbol,
            final(self).value == old(self).value,
            final(self).fields == old(self).fields,
    {
        self.span = span;
    }

    pub fn symbol(&self) -> (r: &String)
        ensures
            *r == self.symbol,
    {
        &self.symbol
    }

    pub fn get_fields(&self) -> (r: &Vec<ChoiseDeclaration>)
        ensures
            r@ == self.fields@,
    {
        &self.fields
    }

    pub fn get_fields_mut(&mut self) -> (r: &mut Vec<ChoiseDeclaration>)
        ensures
            *r == old(self).fields,
            final(self).fields == *final(r),
            final(self).symbol == old(self).symbol,
            final(self).span == old(self).span,
            final(self).value == old(self).value,
    {
        &mut self.fields
    }

    /// Entry `i`, to change in place, if there is one.
    pub fn get_field_mut(&mut self, i: usize) -> (r: Option<&mut ChoiseDeclaration>)
        ensures
            r is Some <==> i < old(self).fields@.len(),
            r is Some ==> *r->Some_0 == old(self).fields@[i as int] && final(self).fields@
                == old(self).fields@.update(i as int, *final(r->Some_0)),
            r is None ==> final(self).fields == old(self).fields,
            final(self).symbol == old(self).symbol,
            final(self).span == old(self).span,
            final(self).value == old(self).value,
    {
        if i < self.fields.len() {
            Some(&mut self.fields[i])
        } else {
            None
        }
    }

    /// Nested case `i`, if there is one.
    pub fn get_field(&self, i: usize) -> (r: Option<&ChoiseDeclaration>)
        ensures
            r is Some <==> i < self.fields@.len(),
            r is Some ==> *r->Some_0 == self.fields@[i as int],
    {
        if i < self.fields.len() {
            Some(&self.fields[i])
        } else {
            None
        }
    }
}

} // verus!
