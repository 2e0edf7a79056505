use vstd::prelude::*;

use crate::error::ParserError;
use crate::expression::Expression;
use crate::symbol_table::SymbolTable;
use crate::token::Span;

verus! {

/// Either `= <expression>` or an indented block of nested constants.
#[derive(Debug, PartialEq)]
pub enum ConstantBody {
    Direct(Expression),
    Content(Vec<ConstantDeclaration>),
}

#[derive(Debug, PartialEq)]
pub struct ConstantDeclaration {
    pub name: String,
    pub body: ConstantBody,
    pub span: Span,
}

impl ConstantDeclaration {
    pub fn new_direct(name: String, initializer: Expression, span: Span) -> (r: ConstantDeclaration)
        ensures
            r == (ConstantDeclaration { name, body: ConstantBody::Direct(initializer), span }),
    {
        ConstantDeclaration { name, body: ConstantBody::Direct(initializer), span }
    }

    /// A constant with a block body that has no entries yet.
    pub fn new(name: String, span: Span) -> (r: ConstantDeclaration)
        ensures
            r.name == name,
            r.span == span,
            r.body is Content && r.body->Content_0@.len() == 0,
    {
        ConstantDeclaration { name, body: ConstantBody::Content(Vec::new()), span }
    }

    pub fn set_span(&mut self, span: Span)
        ensures
            final(self).span == span,
            final(self).name == old(self).name,
            final(self).body == old(self).body,
    {
        self.span = span;
    }

    pub fn name(&self) -> (r: &String)
        ensures
            *r == self.name,
    {
        &self.name
    }

    pub fn has_initializer(&self) -> (r: bool)
        ensures
            r == self.body is Direct,
    {
        match self.body {
            ConstantBody::Direct(_) => true,
            ConstantBody::Content(_) => false,
        }
    }

    pub fn has_children(&self) -> (r: bool)
        ensures
            r == self.body is Content,
    {
        match self.body {
            ConstantBody::Direct(_) => false,
            ConstantBody::Content(_) => true,
        }
    }

    pub fn get_initializer(&self) -> (r: Option<&Expression>)
        ensures
            r is Some <==> self.body is Direct,
            r is Some ==> *r->Some_0 == self.body->Direct_0,
    {
        match &self.body {
            ConstantBody::Direct(e) => Some(e),
            ConstantBody::Content(_) => None,
        }
    }

    pub fn get_fields(&self) -> (r: Option<&Vec<ConstantDeclaration>>)
        ensures
            r is Some <==> self.body is Content,
            r is Some ==> r->Some_0@ == self.body->Content_0@,
    {
        match &self.body {
            ConstantBody::Direct(_) => None,
            ConstantBody::Content(v) => Some(v),
        }
    }

    /// The entries of a block body, to change in place; `None` for a constant
    /// with an initializer.
    pub fn get_fields_mut(&mut self) -> (r: Option<&mut Vec<ConstantDeclaration>>)
        ensures
            r is Some <==> old(self).body is Content,
            r is Some ==> *r->Some_0 == old(self).body->Content_0 && final(self).body
                == ConstantBody::Content(*final(r->Some_0)),
            r is None ==> final(self).body == old(self).body,
            final(self).name == old(self).name,
            final(self).span == old(self).span,
    {
        match &mut self.body {
            ConstantBody::Direct(_) => None,
            ConstantBody::Content(v) => Some(v),
        }
    }

    /// Entry `i` of a block body, to change in place, if there is one.
    pub fn get_field_mut(&mut self, i: usize) -> (r: Option<&mut ConstantDeclaration>)
        ensures
            r is Some <==> old(self).body is Content && i < old(self).body->Content_0@.len(),
            r is Some ==> *r->Some_0 == old(self).body->Content_0@[i as int] && final(self).body is Content
                && final(self).body->Content_0@ == old(self).body->Content_0@.update(
                i as int,
                *final(r->Some_0),
            ),
            r is None ==> final(self).body == old(self).body,
            final(self).name == old(self).name,
            final(self).span == old(self).span,
    {
        match &mut self.body {
            ConstantBody::Direct(_) => None,
            ConstantBody::Content(v) => {
                if i < v.len() {
                    Some(&mut v[i])
                } else {
                    None
                }
            },
        }
    }

    /// Entry `i` of a block body; `None` for a constant with an initializer.
    pub fn get_field(&self, i: usize) -> (r: Option<&ConstantDeclaration>)
        requires
            self.body is Content ==> i < self.body->Content_0@.len(),
        ensures
            r is Some <==> self.body is Content,
            r is Some ==> *r->Some_0 == self.body->Content_0@[i as int],
    {
        match &self.body {
            ConstantBody::Direct(_) => None,
            ConstantBody::Content(v) => Some(&v[i]),
        }
    }

    /// Checks the constant against the names in scope; no rule rejects one yet.
    pub fn type_check(&self, table: &SymbolTable) -> (r: Result<(), ParserError>)
        ensures
            r is Ok,
    {
        Ok(())
    }
}

} // verus!
