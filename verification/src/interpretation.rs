//! The narrow interface through which collaborators consume a derived
//! symbol sequence: they receive the sequence and a code-to-name lookup,
//! and produce an artifact of their own. The core depends only on this
//! interface, never on concrete graphics or rendering types.

use vstd::prelude::*;

pub mod abop;

use crate::error::Error;
use crate::strings::ProductionString;
use crate::symbols::SymbolTable;

verus! {

/// Consumes a symbol sequence plus a code-to-name lookup and produces an
/// artifact.
pub trait Interpretation {
    /// The artifact the interpretation produces.
    type Item;

    /// Interprets a derived string, resolving symbol names through the
    /// table.
    fn interpret(&self, table: &SymbolTable, string: &ProductionString) -> (r: Result<
        Self::Item,
        Error,
    >);
}

/// An interpretation that consumes the string and produces nothing.
#[derive(Debug, Clone)]
pub struct NullInterpretation {
}

impl NullInterpretation {
    pub fn new() -> (r: Self) {
        NullInterpretation {  }
    }
}

impl Default for NullInterpretation {
    fn default() -> (r: Self) {
        NullInterpretation::new()
    }
}

impl Interpretation for NullInterpretation {
    type Item = ();

    fn interpret(&self, table: &SymbolTable, string: &ProductionString) -> (r: Result<
        Self::Item,
        Error,
    >) {
        Ok(())
    }
}

} // verus!
