use vstd::prelude::*;

use crate::alternative::AlternativeDeclaration;
use crate::choice::ChoiseDeclaration;
use crate::constant::ConstantDeclaration;
use crate::error::ParserError;
use crate::option::OptionDeclaration;
use crate::symbol_table::SymbolTable;

verus! {

/// A declaration of the language. `Choice` has no syntax yet.
#[derive(Debug, PartialEq)]
pub enum Declaration {
    Opt(OptionDeclaration),
    Const(ConstantDeclaration),
    Alt(AlternativeDeclaration),
    Choice(ChoiseDeclaration),
}

/// The name a declaration is known by; a choice has none.
pub open spec fn declaration_name(d: Declaration) -> Seq<char> {
    match d {
        Declaration::Opt(o) => o.name@,
        Declaration::Const(c) => c.name@,
        Declaration::Alt(a) => a.name@,
        Declaration::Choice(_) => Seq::empty(),
    }
}

impl Declaration {
    pub fn name(&self) -> (r: String)
        ensures
            r@ == declaration_name(*self),
    {
        match self {
            Declaration::Opt(d) => d.name().clone(),
            Declaration::Const(d) => d.name().clone(),
            Declaration::Alt(d) => d.name().clone(),
            Declaration::Choice(_) => String::new(),
        }
    }

    pub fn is_choise(&self) -> (r: bool)
        ensures
            r == self is Choice,
    {
        match self {
            Declaration::Choice(_) => true,
            _ => false,
        }
    }

    /// Checks the declaration against the names in scope; no rule rejects one yet.
    pub fn type_check(&self, table: &SymbolTable) -> (r: Result<(), ParserError>)
        ensures
            r is Ok,
    {
        match self {
            Declaration::Opt(d) => d.type_check(table),
            Declaration::Const(d) => d.type_check(table),
            Declaration::Alt(d) => d.type_check(table),
            Declaration::Choice(_) => Ok(()),
        }
    }
}

} // verus!
