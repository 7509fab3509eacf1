//! A library for procedurally generating content using L-systems: grammars
//! whose production rules iteratively rewrite a sequence of symbols.
//!
//! The [`system`] module contains the primary tools for defining and running
//! these grammars. Rule text such as `"G < S -> S G"` is parsed by the
//! [`parser`] module into the production model of [`productions`], and the
//! derivation engine in [`system`] applies the rules to symbol sequences
//! from [`strings`].

use vstd::prelude::*;

pub mod error;
pub mod symbols;
pub mod strings;
pub mod productions;
pub mod parser;
pub mod system;
pub mod tokens;
pub mod interpretation;

verus! {

/// The number of fixed-point units that stand for certainty.
///
/// Probabilities are held as integer numbers of millionths, so that
/// `CHANCE_SCALE` means a probability of one.
pub const CHANCE_SCALE: u32 = 1000000;

} // verus!
