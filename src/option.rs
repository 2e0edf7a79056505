use vstd::prelude::*;

use crate::alternative::AlternativeDeclaration;
use crate::constant::ConstantDeclaration;
use crate::error::ParserError;
use crate::symbol_table::SymbolTable;
use crate::token::Span;

verus! {

#[derive(Debug, PartialEq)]
pub enum OptionField {
    SubOption(OptionDeclaration),
    Const(ConstantDeclaration),
    Alt(AlternativeDeclaration),
}

#[derive(Debug, PartialEq)]
pub struct OptionDeclaration {
    pub name: String,
    pub fields: Vec<OptionField>,
    pub span: Span,
}

impl OptionDeclaration {
    /// An option with no fields yet.
    pub fn new(name: String, span: Span) -> (r: OptionDeclaration)
        ensures
            r.name == name,
            r.span == span,
            r.fields@.len() == 0,
    {
        OptionDeclaration { name, fields: Vec::new(), span }
    }

    pub fn set_span(&mut self, span: Span)
        ensures
            final(self).span == span,
            final(self).name == old(self).name,
            final(self).fields == old(self).fields,
    {
        self.span = span;
    }

    pub fn name(&self) -> (r: &String)
        ensures
            *r == self.name,
    {
        &self.name
    }

    pub fn get_fields(&self) -> (r: &Vec<OptionField>)
        ensures
            r@ == self.fields@,
    {
        &self.fields
    }

    /// Field `i`, if there is one.
    pub fn get_field(&self, i: usize) -> (r: Option<&OptionField>)
        ensures
            r is Some <==> i < self.fields@.len(),
            r is Some ==> *r->Some_0 == self.fields@[i as int],
    {
        if i < self.fields.len() {
            Some(&self.fields[i])
        } else {
            None
        }
    }

    pub fn get_fields_mut(&mut self) -> (r: &mut Vec<OptionField>)
        ensures
            *r == old(self).fields,
            final(self).fields == *final(r),
            final(self).name == old(self).name,
            final(self).span == old(self).span,
    {
        &mut self.fields
    }

    /// Field `i`, to change in place, if there is one.
    pub fn get_field_mut(&mut self, i: usize) -> (r: Option<&mut OptionField>)
        ensures
            r is Some <==> i < old(self).fields@.len(),
            r is Some ==> *r->Some_0 == old(self).fields@[i as int] && final(self).fields@ == old(self).fields@.update(i as int, *final(r->Some_0)),
            r is None ==> final(self).fields == old(self).fields,
            final(self).name == old(self).name,
            final(self).span == old(self).span,
    {
        if i < self.fields.len() {
            Some(&mut self.fields[i])
        } else {
            None
        }
    }

    /// Checks the option against the names in scope; no rule rejects one yet.
    pub fn type_check(&self, table: &SymbolTable) -> (r: Result<(), ParserError>)
        ensures
            r is Ok,
    {
        Ok(())
    }
}

} // verus!
