//! Typed tokens: raw token text classified into the kinds the grammar
//! parser consumes.

use vstd::prelude::*;

use crate::error::{Error, ErrorKind};
use crate::symbols::{Symbol, SymbolTable, spec_intern, FIRST_CODE};

verus! {

/// The kind of a token of grammar text.
#[derive(Debug, Copy, Clone, PartialEq, Eq, Structural)]
pub enum TokenKind {
    /// A symbol name.
    Symbol,
    /// The production arrow `->`.
    Arrow,
    /// The pre-context delimiter `<`.
    ContextLeft,
    /// The post-context delimiter `>`.
    ContextRight,
    /// The end of a statement: `;` or the end of the input.
    Terminator,
}

/// The kind that a token's text denotes: `;` and the empty text end a
/// statement, `->` is the arrow, `<` and `>` delimit context, and any other
/// text is a symbol name.
pub open spec fn spec_token_kind(t: Seq<char>) -> TokenKind {
    if t.len() == 0 || t == seq![';'] {
        TokenKind::Terminator
    } else if t == seq!['-', '>'] {
        TokenKind::Arrow
    } else if t == seq!['>'] {
        TokenKind::ContextRight
    } else if t == seq!['<'] {
        TokenKind::ContextLeft
    } else {
        TokenKind::Symbol
    }
}

/// Classifies a token's text.
pub fn kind_of(text: &str) -> (r: TokenKind)
    ensures
        r == spec_token_kind(text@),
{
    let len = text.unicode_len();
    if len == 0 {
        return TokenKind::Terminator;
    }
    if len == 1 {
        let c = text.get_char(0);
        proof {
            if c == ';' {
                assert(text@ =~= seq![';']);
            } else {
                assert(text@ != seq![';']) by {
                    assert(text@[0] == c);
                }
            }
            assert(text@.len() != 2);
        }
        if c == ';' {
            return TokenKind::Terminator;
        }
        if c == '>' {
            proof {
                assert(text@ =~= seq!['>']);
            }
            return TokenKind::ContextRight;
        }
        if c == '<' {
            proof {
                assert(text@ =~= seq!['<']);
            }
            return TokenKind::ContextLeft;
        }
        proof {
            assert(text@ != seq!['>'] && text@ != seq!['<']) by {
                assert(text@[0] == c);
            }
        }
        return TokenKind::Symbol;
    }
    if len == 2 {
        let c0 = text.get_char(0);
        let c1 = text.get_char(1);
        proof {
            assert(text@.len() != 1);
            if c0 == '-' && c1 == '>' {
                assert(text@ =~= seq!['-', '>']);
            } else {
                assert(text@ != seq!['-', '>']) by {
                    assert(text@[0] == c0 && text@[1] == c1);
                }
            }
        }
        if c0 == '-' && c1 == '>' {
            return TokenKind::Arrow;
        }
        return TokenKind::Symbol;
    }
    proof {
        assert(text@.len() > 2);
    }
    TokenKind::Symbol
}

/// A typed token: the text of a raw token together with its span and its
/// classified kind.
#[derive(Debug, Copy, Clone)]
pub struct Token<'a> {
    pub text: &'a str,
    pub start: usize,
    pub end: usize,
    pub kind: TokenKind,
}

impl<'a> Token<'a> {
    pub fn new(text: &'a str, start: usize, end: usize) -> (r: Self)
        ensures
            r.text@ == text@,
            r.start == start,
            r.end == end,
            r.kind == spec_token_kind(text@),
    {
        let kind = kind_of(text);
        Token { text, start, end, kind }
    }

    /// Whether this token ends a statement.
    pub fn is_terminal(&self) -> (r: bool)
        ensures
            r == (self.kind is Terminator),
    {
        matches!(self.kind, TokenKind::Terminator)
    }

    /// Interns the token's text, which must be a symbol name.
    pub fn to_symbol(&self, table: &mut SymbolTable) -> (r: Result<Symbol, Error>)
        requires
            old(table).wf(),
        ensures
            final(table).wf(),
            self.kind != TokenKind::Symbol ==> (r matches Err(e) && e.spec_kind()
                == ErrorKind::Parse) && final(table)@ == old(table)@,
            r matches Ok(sym) ==> self.kind == TokenKind::Symbol && final(table)@ == spec_intern(
                old(table)@,
                self.text@,
            ).0 && sym.code == spec_intern(old(table)@, self.text@).1,
            self.kind == TokenKind::Symbol && old(table)@.len() + FIRST_CODE < u32::MAX
                && self.kind == spec_token_kind(self.text@) ==> r is Ok,
            r matches Err(e) ==> e.spec_kind() == ErrorKind::Parse || e.spec_kind()
                == ErrorKind::Execution,
    {
        if !matches!(self.kind, TokenKind::Symbol) {
            return Err(Error::new(ErrorKind::Parse, "token is not a Symbol"));
        }
        proof {
            if self.kind == spec_token_kind(self.text@) {
                assert(self.text@.len() > 0);
            }
        }
        table.intern(self.text)
    }
}

} // verus!
