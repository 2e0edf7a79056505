use vstd::prelude::*;

use crate::declaration::{declaration_name, Declaration};

verus! {

/// The last declaration entered under `name` among `entries`.
pub open spec fn local_lookup(entries: Seq<(String, &Declaration)>, name: Seq<char>) -> Option<
    Declaration,
>
    decreases entries.len(),
{
    if entries.len() == 0 {
        None
    } else if entries.last().0@ == name {
        Some(*entries.last().1)
    } else {
        local_lookup(entries.drop_last(), name)
    }
}

/// A scope of names: a lookup that misses here goes on to the parent scope;
/// an insertion stays in this one.
pub struct SymbolTable<'a> {
    symbols: Vec<(String, &'a Declaration)>,
    parent: Option<&'a SymbolTable<'a>>,
}

impl<'a> SymbolTable<'a> {
    /// What `name` refers to in this scope or an enclosing one.
    pub closed spec fn lookup(&self, name: Seq<char>) -> Option<Declaration>
        decreases self,
    {
        match local_lookup(self.symbols@, name) {
            Some(d) => Some(d),
            None => match self.parent {
                Some(p) => p.lookup(name),
                None => None,
            },
        }
    }

    /// A scope without names and without a parent.
    pub fn new() -> (r: SymbolTable<'a>)
        ensures
            forall|n: Seq<char>| r.lookup(n) is None,
    {
        SymbolTable { symbols: Vec::new(), parent: None }
    }

    /// An empty scope inside `parent`.
    pub fn new_from_parent(parent: &'a SymbolTable<'a>) -> (r: SymbolTable<'a>)
        ensures
            forall|n: Seq<char>| r.lookup(n) == parent.lookup(n),
    {
        SymbolTable { symbols: Vec::new(), parent: Some(parent) }
    }

    /// An empty scope inside this one.
    pub fn make_child(&'a self) -> (r: SymbolTable<'a>)
        ensures
            forall|n: Seq<char>| r.lookup(n) == self.lookup(n),
    {
        SymbolTable { symbols: Vec::new(), parent: Some(self) }
    }

    /// Enters `dec` under its name in this scope.
    pub fn insert(&mut self, dec: &'a Declaration)
        ensures
            forall|n: Seq<char>|
                #[trigger] final(self).lookup(n) == if n == declaration_name(*dec) {
                    Some(*dec)
                } else {
                    old(self).lookup(n)
                },
    {
        let ghost before = self.symbols@;
        self.symbols.push((dec.name(), dec));
        assert(self.symbols@.drop_last() =~= before);
    }

    /// What `s` refers to in this scope or an enclosing one.
    pub fn get(&self, s: &String) -> (r: Option<&Declaration>)
        ensures
            r is Some <==> self.lookup(s@) is Some,
            r is Some ==> *r->Some_0 == self.lookup(s@)->Some_0,
        decreases self,
    {
        let mut k = self.symbols.len();
        assert(self.symbols@.subrange(0, k as int) =~= self.symbols@);
        while k > 0
            invariant
                k <= self.symbols@.len(),
                local_lookup(self.symbols@, s@) == local_lookup(self.symbols@.subrange(0, k as int), s@),
            decreases k,
        {
            let entry = &self.symbols[k - 1];
            let ghost prefix = self.symbols@.subrange(0, k as int);
            assert(prefix.drop_last() =~= self.symbols@.subrange(0, k - 1));
            if entry.0 == *s {
                return Some(entry.1);
            }
            k = k - 1;
        }
        assert(self.symbols@.subrange(0, 0) =~= Seq::<(String, &Declaration)>::empty());
        match self.parent {
            Some(p) => p.get(s),
            None => None,
        }
    }
}

} // verus!
