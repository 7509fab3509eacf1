//! Strings of [`Symbol`] values, which production rules of a grammar rewrite.
//!
//! The main struct is [`ProductionString`]: an ordered list of symbols in
//! which order is significant and duplicates are allowed. Derivation never
//! mutates a production string in place; it always builds a new one.

use vstd::prelude::*;

use crate::symbols::Symbol;

verus! {

/// Represents strings in an L-system: an ordered sequence of [`Symbol`]
/// values, such as an axiom or the result of a derivation.
#[derive(Debug)]
pub struct ProductionString {
    symbols: Vec<Symbol>,
}

impl View for ProductionString {
    type V = Seq<Symbol>;

    closed spec fn view(&self) -> Seq<Symbol> {
        self.symbols@
    }
}

impl ProductionString {
    /// Create an empty string.
    pub fn new() -> (r: Self)
        ensures
            r@ =~= Seq::<Symbol>::empty(),
    {
        ProductionString { symbols: Vec::new() }
    }

    /// Creates the _empty_ production string. This is a synonym for
    /// [`ProductionString::new`].
    pub fn empty() -> (r: Self)
        ensures
            r@ =~= Seq::<Symbol>::empty(),
    {
        ProductionString::new()
    }

    /// Whether this is the empty string.
    pub fn is_empty(&self) -> (r: bool)
        ensures
            r == (self@.len() == 0),
    {
        self.symbols.len() == 0
    }

    /// Returns the length of the production string.
    pub fn len(&self) -> (r: usize)
        ensures
            r == self@.len(),
    {
        self.symbols.len()
    }

    /// Access the symbols of this production string.
    pub fn symbols(&self) -> (r: &Vec<Symbol>)
        ensures
            r@ == self@,
    {
        &self.symbols
    }

    /// The symbol at the given position.
    pub fn symbol_at(&self, index: usize) -> (r: Symbol)
        requires
            index < self@.len(),
        ensures
            r == self@[index as int],
    {
        self.symbols[index]
    }

    /// Add another symbol to the end of the string.
    pub fn push_symbol(&mut self, symbol: Symbol)
        ensures
            final(self)@ == old(self)@.push(symbol),
    {
        self.symbols.push(symbol);
    }
}

impl Clone for ProductionString {
    fn clone(&self) -> (r: Self)
        ensures
            r@ == self@,
    {
        let mut copied: Vec<Symbol> = Vec::new();
        let mut i: usize = 0;
        while i < self.symbols.len()
            invariant
                i <= self@.len(),
                self@.len() == self.symbols@.len(),
                self@ == self.symbols@,
                copied@ == self@.take(i as int),
            decreases self@.len() - i,
        {
            copied.push(self.symbols[i]);
            proof {
                assert(copied@ =~= self@.take(i + 1 as int));
            }
            i += 1;
        }
        proof {
            assert(copied@ =~= self@);
        }
        ProductionString { symbols: copied }
    }
}

impl Default for ProductionString {
    fn default() -> (r: Self)
        ensures
            r@ =~= Seq::<Symbol>::empty(),
    {
        ProductionString::new()
    }
}

impl PartialEq for ProductionString {
    /// Two production strings are equal when they hold the same symbols in
    /// the same order.
    fn eq(&self, other: &Self) -> (r: bool) {
        if self.symbols.len() != other.symbols.len() {
            return false;
        }
        let mut i: usize = 0;
        while i < self.symbols.len()
            invariant
                i <= self@.len(),
                self@.len() == self.symbols@.len(),
                self@ == self.symbols@,
                other@ == other.symbols@,
                self@.len() == other@.len(),
                forall|j: int| 0 <= j < i ==> self@[j] == other@[j],
            decreases self@.len() - i,
        {
            if self.symbols[i].code != other.symbols[i].code {
                return false;
            }
            i += 1;
        }
        proof {
            assert(self@ =~= other@);
        }
        true
    }
}

impl Eq for ProductionString {

}

impl vstd::std_specs::cmp::PartialEqSpecImpl for ProductionString {
    open spec fn obeys_eq_spec() -> bool {
        true
    }

    open spec fn eq_spec(&self, other: &ProductionString) -> bool {
        self@ == other@
    }
}

/// Types that can hand out every symbol they contain, in order.
pub trait SymbolIterable {
    /// The symbols the value contains, as a spec-level sequence.
    spec fn symbols_view(&self) -> Seq<Symbol>;

    /// Collects all the symbols contained in the value, in order. Duplicates
    /// are kept; callers that want a set deduplicate the result.
    fn all_symbols(&self) -> (r: Vec<Symbol>)
        ensures
            r@ == self.symbols_view(),
    ;
}

impl SymbolIterable for ProductionString {
    open spec fn symbols_view(&self) -> Seq<Symbol> {
        self@
    }

    fn all_symbols(&self) -> (r: Vec<Symbol>) {
        let copied = self.clone();
        let ProductionString { symbols } = copied;
        symbols
    }
}

} // verus!
