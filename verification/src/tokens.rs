//! Coded tokens tagged with whether a production rule can target them.
//!
//! * [`TokenKind::Terminal`] marks the strict endpoints of an L-system: no
//!   production rule targets them.
//! * [`TokenKind::Production`] marks tokens that a production rule can
//!   rewrite.

use vstd::prelude::*;

use crate::parser::{spec_split_ws, split_whitespace};

verus! {

/// Whether a production rule can target a token.
#[derive(Debug, Copy, Clone, Eq, PartialEq, Hash, Structural)]
pub enum TokenKind {
    Terminal,
    Production,
}

impl TokenKind {
    pub fn is_terminal(&self) -> (r: bool)
        ensures
            r == (*self is Terminal),
    {
        matches!(self, TokenKind::Terminal)
    }

    pub fn is_production(&self) -> (r: bool)
        ensures
            r == (*self is Production),
    {
        matches!(self, TokenKind::Production)
    }
}

/// A coded token: a kind together with a unique identifier.
#[derive(Debug, Copy, Clone, Eq, PartialEq, Hash, Structural)]
pub struct Token {
    kind: TokenKind,
    code: u32,
}

impl Token {
    /// The kind of the token, as a spec-level value.
    pub closed spec fn spec_kind(&self) -> TokenKind {
        self.kind
    }

    /// The code of the token, as a spec-level value.
    pub closed spec fn spec_code(&self) -> u32 {
        self.code
    }

    pub fn new(kind: TokenKind, code: u32) -> (r: Self)
        ensures
            r.spec_kind() == kind,
            r.spec_code() == code,
    {
        Token { kind, code }
    }

    pub fn kind(&self) -> (r: TokenKind)
        ensures
            r == self.spec_kind(),
    {
        self.kind
    }

    /// A unique identifier for the token, set when the token is created.
    /// The value may differ between grammar instances and should not be
    /// relied on across them.
    pub fn code(&self) -> (r: u32)
        ensures
            r == self.spec_code(),
    {
        self.code
    }

    pub fn is_terminal(&self) -> (r: bool)
        ensures
            r == (self.spec_kind() is Terminal),
    {
        self.kind.is_terminal()
    }

    pub fn is_production(&self) -> (r: bool)
        ensures
            r == (self.spec_kind() is Production),
    {
        self.kind.is_production()
    }
}

/// The kind that the default string parser gives a name: a name whose first
/// character is an ASCII uppercase letter can be targeted by productions;
/// any other name is a terminal; whitespace-only text has no kind.
pub open spec fn spec_determine_kind(s: Seq<char>) -> Option<TokenKind> {
    if spec_split_ws(s).len() == 0 {
        Option::None
    } else {
        let first = spec_split_ws(s)[0][0];
        if 'A' <= first && first <= 'Z' {
            Option::Some(TokenKind::Production)
        } else {
            Option::Some(TokenKind::Terminal)
        }
    }
}

/// For the default string parser, this determines the kind of [`Token`]
/// that a name should be parsed as: names starting with an ASCII uppercase
/// letter are production targets, all others are terminals.
pub fn determine_kind(string: &str) -> (r: Option<TokenKind>)
    ensures
        r == spec_determine_kind(string@),
{
    let tokens = split_whitespace(string);
    if tokens.len() == 0 {
        return Option::None;
    }
    proof {
        crate::parser::lemma_split_ws_tokens(string@, 0);
        assert(crate::parser::texts_view(tokens@)[0] == spec_split_ws(string@)[0]);
        assert(spec_split_ws(string@)[0].len() > 0);
    }
    let first_token = &tokens[0];
    let first = first_token.as_str().get_char(0);
    if 'A' <= first && first <= 'Z' {
        Option::Some(TokenKind::Production)
    } else {
        Option::Some(TokenKind::Terminal)
    }
}

} // verus!
