//! Named atoms.

use vstd::prelude::*;
use crate::expression::Expr;
use crate::model::ExprS;

verus! {

/// A named atom; two symbols are the same exactly when their names are
/// equal, and the hash is derived from the name alone.
#[derive(Debug, Hash)]
pub struct Symbol {
    name: String,
}

impl View for Symbol {
    type V = Seq<char>;

    /// The name the symbol stands for.
    closed spec fn view(&self) -> Seq<char> {
        self.name@
    }
}

impl Symbol {
    /// A symbol with the given name.
    pub fn new(name: &str) -> (r: Symbol)
        ensures
            r@ == name@,
    {
        Symbol { name: name.to_owned() }
    }

    /// The symbol's name.
    pub fn name(&self) -> (r: &str)
        ensures
            r@ == self@,
    {
        self.name.as_str()
    }

    /// The expression handle whose tree is this one symbol.
    pub fn to_expr(&self) -> (r: Expr)
        ensures
            r@ == ExprS::Sym(self@),
    {
        Expr::symbol(self.name.as_str())
    }
}

impl PartialEq for Symbol {
    /// Two symbols are equal exactly when their names are.
    fn eq(&self, other: &Self) -> (r: bool) {
        self.name == other.name
    }
}

impl vstd::std_specs::cmp::PartialEqSpecImpl for Symbol {
    open spec fn obeys_eq_spec() -> bool {
        true
    }

    open spec fn eq_spec(&self, other: &Self) -> bool {
        self@ == other@
    }
}

impl Eq for Symbol {}

} // verus!
