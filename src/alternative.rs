use vstd::prelude::*;

use crate::error::ParserError;
use crate::option::OptionDeclaration;
use crate::symbol_table::SymbolTable;
use crate::token::Span;

verus! {

/// A named choice among options, each written as an option without its keyword.
#[derive(Debug, PartialEq)]
pub struct AlternativeDeclaration {
    pub name: String,
    pub alternatives: Vec<OptionDeclaration>,
    pub span: Span,
}

impl AlternativeDeclaration {
    /// An alternative with no options yet.
    pub fn new(name: String, span: Span) -> (r: AlternativeDeclaration)
        ensures
            r.name == name,
            r.span == span,
            r.alternatives@.len() == 0,
    {
        AlternativeDeclaration { name, alternatives: Vec::new(), span }
    }

    pub fn set_span(&mut self, span: Span)
        ensures
            final(self).span == span,
            final(self).name == old(self).name,
            final(self).alternatives == old(self).alternatives,
    {
        self.span = span;
    }

    pub fn name(&self) -> (r: &String)
        ensures
            *r == self.name,
    {
        &self.name
    }

    pub fn get_fields(&self) -> (r: &Vec<OptionDeclaration>)
        ensures
            r@ == self.alternatives@,
    {
        &self.alternatives
    }

    /// Option `i`, if there is one.
    pub fn get_field(&self, i: usize) -> (r: Option<&OptionDeclaration>)
        ensures
            r is Some <==> i < self.alternatives@.len(),
            r is Some ==> *r->Some_0 == self.alternatives@[i as int],
    {
        if i < self.alternatives.len() {
            Some(&self.alternatives[i])
        } else {
            None
        }
    }

    pub fn get_fields_mut(&mut self) -> (r: &mut Vec<OptionDeclaration>)
        ensures
            *r == old(self).alternatives,
            final(self).alternatives == *final(r),
            final(self).name == old(self).name,
            final(self).span == old(self).span,
    {
        &mut self.alternatives
    }

    /// Entry `i`, to change in place, if there is one.
    pub fn get_field_mut(&mut self, i: usize) -> (r: Option<&mut OptionDeclaration>)
        ensures
            r is Some <==> i < old(self).alternatives@.len(),
            r is Some ==> *r->Some_0 == old(self).alternatives@[i as int] && final(self).alternatives@
                == old(self).alternatives@.update(i as int, *final(r->Some_0)),
            r is None ==> final(self).alternatives == old(self).alternatives,
            final(self).name == old(self).name,
            final(self).span == old(self).span,
    {
        if i < self.alternatives.len() {
            Some(&mut self.alternatives[i])
        } else {
            None
        }
    }

    /// Checks the alternative against the names in scope; no rule rejects one yet.
    pub fn type_check(&self, table: &SymbolTable) -> (r: Result<(), ParserError>)
        ensures
            r is Ok,
    {
        Ok(())
    }
}

} // verus!
