use vstd::prelude::*;

use crate::scope::{mangled, Scope};
use crate::types::{letters_of, Type};

verus! {

/// A function to mangle: its resolved name and its parameter types in order.
pub struct Func {
    scope: Scope,
    params: Vec<Type>,
}

impl Func {
    /// The symbol this function mangles to.
    pub closed spec fn symbol(&self) -> Seq<char> {
        seq!['_', 'Z'] + self.scope.code() + letters_of(self.params@)
    }

    /// Creates a function from its full C++ name (`::` between scopes) and its
    /// parameters; its symbol is `mangled(name@, params@)`.
    pub fn new(name: String, params: Vec<Type>) -> (r: Func)
        ensures
            r.symbol() == mangled(name@, params@),
    {
        Func { scope: Scope::new(name), params }
    }

    /// Mangles this function according to the Itanium C++ ABI.
    pub fn mangle(&self) -> (r: String)
        ensures
            r@ == self.symbol(),
    {
        self.scope.mangle(self.params.as_slice())
    }
}

} // verus!
