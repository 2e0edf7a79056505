use vstd::prelude::*;

use crate::declaration::Declaration;
use crate::error::ParserError;
use crate::symbol_table::SymbolTable;

verus! {

/// The declarations of a source text, in source order.
#[derive(Debug, PartialEq)]
pub struct Document {
    pub entries: Vec<Declaration>,
}

impl Document {
    pub fn new() -> (r: Document)
        ensures
            r.entries@.len() == 0,
    {
        Document { entries: Vec::new() }
    }

    /// Enters every declaration but the choices in one scope, then checks
    /// each declaration against it; no rule rejects one yet.
    pub fn type_check(&self) -> (r: Result<(), ParserError>)
        ensures
            r is Ok,
    {
        let mut table = SymbolTable::new();
        let mut i: usize = 0;
        while i < self.entries.len()
            invariant
                i <= self.entries@.len(),
            decreases self.entries@.len() - i,
        {
            if !self.entries[i].is_choise() {
                table.insert(&self.entries[i]);
            }
            i = i + 1;
        }
        let mut j: usize = 0;
        while j < self.entries.len()
            invariant
                j <= self.entries@.len(),
            decreases self.entries@.len() - j,
        {
            match self.entries[j].type_check(&table) {
                Ok(()) => {},
                Err(e) => {
                    return Err(e);
                },
            }
            j = j + 1;
        }
        Ok(())
    }
}

} // verus!
