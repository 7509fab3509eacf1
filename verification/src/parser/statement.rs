//! Statements: runs of tokens that compile into one value each.
//!
//! A source blob may hold several `;`-terminated grammar statements. The
//! statement layer matches runs of tokens against a [`ParsableType`] and
//! compiles each matched run.

use vstd::prelude::*;

use crate::error::{Error, ErrorKind};
use crate::parser::iterator::{spec_scan, spec_tokens_from, TokenIterator};
use crate::parser::spec_parse_tokens;
use crate::parser::token::{spec_token_kind, Token, TokenKind};
use crate::strings::ProductionString;
use crate::symbols::{Symbol, SymbolTable, FIRST_CODE};

verus! {

/// What a statement holds.
#[derive(Debug, Copy, Clone, PartialEq, Eq, Structural)]
pub enum StatementKind {
    /// A statement that could not be classified.
    Error,
    /// A run of symbols ended by a terminator.
    ProductionString,
}

/// A classified run of tokens, or the error that classification hit.
#[derive(Debug)]
pub struct Statement<'a> {
    kind: StatementKind,
    tokens: Vec<Token<'a>>,
    error: Option<Error>,
}

/// The texts of a run of tokens.
pub open spec fn texts_of(toks: Seq<Token>) -> Seq<Seq<char>> {
    toks.map(|i: int, t: Token| t.text@)
}

/// The kinds of a run of tokens.
pub open spec fn kinds_of(toks: Seq<Token>) -> Seq<TokenKind> {
    toks.map(|i: int, t: Token| t.kind)
}

/// Every token's stored kind is the kind its text denotes. Tokens built by
/// [`Token::new`] always satisfy this.
pub open spec fn tokens_classified(toks: Seq<Token>) -> bool {
    forall|i: int|
        0 <= i < toks.len() ==> (#[trigger] toks[i]).kind == spec_token_kind(toks[i].text@)
}

impl<'a> Statement<'a> {
    /// The kind of the statement, as a spec-level value.
    pub closed spec fn spec_kind(&self) -> StatementKind {
        self.kind
    }

    /// The tokens of the statement, as a spec-level value.
    pub closed spec fn spec_tokens(&self) -> Seq<Token<'a>> {
        self.tokens@
    }

    /// The error the statement carries, as a spec-level value.
    pub closed spec fn spec_error(&self) -> Option<Error> {
        self.error
    }

    pub fn new(kind: StatementKind, tokens: Vec<Token<'a>>) -> (r: Self)
        ensures
            r.spec_kind() == kind,
            r.spec_tokens() == tokens@,
            r.spec_error() is None,
    {
        Statement { kind, tokens, error: None }
    }

    /// The tokens the statement holds.
    pub fn tokens(&self) -> (r: &Vec<Token<'a>>)
        ensures
            r@ == self.spec_tokens(),
    {
        &self.tokens
    }

    /// The error the statement carries, if classification failed.
    pub fn error(&self) -> (r: Option<&Error>)
        ensures
            match r {
                Option::Some(e) => self.spec_error() == Option::Some(*e),
                Option::None => self.spec_error() is None,
            },
    {
        self.error.as_ref()
    }

    pub fn kind(&self) -> (r: StatementKind)
        ensures
            r == self.spec_kind(),
    {
        self.kind
    }

    /// Compiles the statement into a value of type `T`, interning symbol
    /// names into the table. A statement that carries an error yields that
    /// error; one of the wrong kind yields a parse error; otherwise the
    /// tokens compile as `T` says.
    pub fn compile<T: ParsableType>(&self, table: &mut SymbolTable) -> (r: Result<T, Error>)
        requires
            old(table).wf(),
        ensures
            final(table).wf(),
            self.spec_error() matches Option::Some(e0) ==> final(table)@ == old(table)@ && (
            r matches Err(e) && e.spec_kind() == e0.spec_kind() && e.spec_message()
                == e0.spec_message()),
            self.spec_error() is None && self.spec_kind() != T::spec_kind() ==> final(table)@
                == old(table)@ && (r matches Err(e) && e.spec_kind() == ErrorKind::Parse),
            self.spec_error() is None && self.spec_kind() == T::spec_kind() ==> {
                let toks = self.spec_tokens();
                &&& (r matches Ok(v) ==> T::accepts(toks) && (final(table)@, v@) == T::compiled(
                    old(table)@,
                    toks,
                ))
                &&& (!T::accepts(toks) ==> r is Err)
                &&& (T::accepts(toks) && tokens_classified(toks) && T::room_for(old(table)@, toks)
                    ==> r is Ok)
            },
    {
        match &self.error {
            Option::Some(e) => Err(e.clone()),
            Option::None => T::compile(CheckedStatement::new(self), table),
        }
    }
}

/// A struct whose sole purpose is to ensure a kind check against
/// [`StatementKind`] when accessing a [`Statement`].
///
/// See [`CheckedStatement::expect`], which performs the check.
#[derive(Debug, Copy, Clone)]
pub struct CheckedStatement<'a, 'b> {
    statement: &'a Statement<'b>,
}

impl<'a, 'b> CheckedStatement<'a, 'b> {
    /// The wrapped statement, as a spec-level value.
    pub closed spec fn spec_statement(&self) -> &'a Statement<'b> {
        self.statement
    }

    pub fn new(statement: &'a Statement<'b>) -> (r: Self)
        ensures
            r.spec_statement() == statement,
    {
        CheckedStatement { statement }
    }

    /// The statement, provided it is of the expected kind; a parse error
    /// otherwise.
    pub fn expect(&self, kind: StatementKind) -> (r: Result<&'a Statement<'b>, Error>)
        ensures
            r matches Ok(s) ==> s == self.spec_statement() && s.spec_kind() == kind,
            r is Ok <==> self.spec_statement().spec_kind() == kind,
            r matches Err(e) ==> e.spec_kind() == ErrorKind::Parse,
    {
        if !statement_kinds_equal(self.statement.kind(), kind) {
            return Err(Error::new(ErrorKind::Parse, "statement is not of the expected kind"));
        }
        Ok(self.statement)
    }
}

/// Whether two statement kinds are the same.
fn statement_kinds_equal(a: StatementKind, b: StatementKind) -> (r: bool)
    ensures
        r == (a == b),
{
    match (a, b) {
        (StatementKind::Error, StatementKind::Error) => true,
        (StatementKind::ProductionString, StatementKind::ProductionString) => true,
        _ => false,
    }
}

/// Records how a type that we wanted to parse matches against the input
/// tokens.
#[derive(Debug, Copy, Clone, PartialEq, Eq, Structural)]
pub enum Match {
    /// This is a match, with how many tokens it matched.
    Matches(usize),
    /// This is not a match; holds the number of tokens that did match.
    No(usize),
}

/// The texts of the tokens that scanning yields.
pub open spec fn scanned_texts(toks: Seq<(Seq<char>, int, int)>) -> Seq<Seq<char>>
{
    toks.map(|i: int, t: (Seq<char>, int, int)| t.0)
}

/// How a run of symbols ended by a terminator matches token texts, reading
/// from index `i`: symbols are consumed; a terminator ends the match with
/// the count of tokens read; any other kind, or running out of tokens,
/// fails with the count read so far (reported as zero when the input ends).
pub open spec fn ps_match_from(texts: Seq<Seq<char>>, i: int) -> Match
    decreases texts.len() - i,
{
    if i < 0 || i >= texts.len() {
        Match::No(0)
    } else {
        match spec_token_kind(texts[i]) {
            TokenKind::Symbol => ps_match_from(texts, i + 1),
            TokenKind::Terminator => Match::Matches((i + 1) as usize),
            _ => Match::No(i as usize),
        }
    }
}

/// Each scanned token moves the cursor, so a text yields at most one token
/// per character that lies after the cursor.
pub proof fn lemma_tokens_count(s: Seq<char>, cur: int)
    requires
        0 <= cur,
    ensures
        spec_tokens_from(s, cur).len() <= s.len() - cur || spec_tokens_from(s, cur).len() == 0,
    decreases s.len() - cur, s.len() - cur + 1,
{
    crate::parser::iterator::lemma_scan_advances(s, cur);
    match spec_scan(s, cur).0 {
        Option::None => {},
        Option::Some(t) => {
            lemma_tokens_count(s, spec_scan(s, cur).1);
        },
    }
}

/// A type that can be parsed out of a run of tokens. Each implementing type
/// says, through its spec functions, which token runs it accepts and what
/// compiling them yields.
pub trait ParsableType: Sized + View {
    /// The statement kind that runs of this type are labelled with.
    spec fn spec_kind() -> StatementKind;

    /// Whether the kinds of the tokens form a run this type accepts.
    spec fn accepts(toks: Seq<Token>) -> bool;

    /// The table afterwards and the compiled value's view, when an accepted
    /// run compiles.
    spec fn compiled(names: Seq<Seq<char>>, toks: Seq<Token>) -> (Seq<Seq<char>>, Self::V);

    /// A condition under which compiling an accepted, well-classified run is
    /// owed to succeed; typically that the table has room for the run.
    spec fn room_for(names: Seq<Seq<char>>, toks: Seq<Token>) -> bool;

    fn kind() -> (r: StatementKind)
        ensures
            r == Self::spec_kind(),
    ;

    /// How the upcoming tokens of the iterator match this type.
    fn matches(iterator: TokenIterator) -> (r: Match)
        requires
            iterator.wf(),
    ;

    /// Compiles a run of tokens into a value, interning symbol names.
    fn compile_from(tokens: &Vec<Token>, table: &mut SymbolTable) -> (r: Result<Self, Error>)
        requires
            old(table).wf(),
        ensures
            final(table).wf(),
            r matches Ok(v) ==> Self::accepts(tokens@) && (final(table)@, v@) == Self::compiled(
                old(table)@,
                tokens@,
            ),
            !Self::accepts(tokens@) ==> r is Err,
            Self::accepts(tokens@) && tokens_classified(tokens@) && Self::room_for(
                old(table)@,
                tokens@,
            ) ==> r is Ok,
            r matches Err(e) ==> e.spec_kind() == ErrorKind::Parse || e.spec_kind()
                == ErrorKind::Execution,
    ;

    /// Checks the statement's kind and compiles its tokens.
    fn compile(statement: CheckedStatement<'_, '_>, table: &mut SymbolTable) -> (r: Result<
        Self,
        Error,
    >)
        requires
            old(table).wf(),
        ensures
            final(table).wf(),
            statement.spec_statement().spec_kind() != Self::spec_kind() ==> r is Err
                && final(table)@ == old(table)@ && (r matches Err(e) && e.spec_kind()
                == ErrorKind::Parse),
            statement.spec_statement().spec_kind() == Self::spec_kind() ==> {
                let toks = statement.spec_statement().spec_tokens();
                &&& (r matches Ok(v) ==> Self::accepts(toks) && (final(table)@, v@)
                    == Self::compiled(old(table)@, toks))
                &&& (!Self::accepts(toks) ==> r is Err)
                &&& (Self::accepts(toks) && tokens_classified(toks) && Self::room_for(
                    old(table)@,
                    toks,
                ) ==> r is Ok)
            },
            r matches Err(e) ==> e.spec_kind() == ErrorKind::Parse || e.spec_kind()
                == ErrorKind::Execution,
    ;
}

/// The index of the first terminator among the token kinds, or the length if
/// there is none.
pub open spec fn first_terminal(kinds: Seq<TokenKind>, i: int) -> int
    decreases kinds.len() - i,
{
    if i < 0 || i >= kinds.len() {
        kinds.len() as int
    } else if kinds[i] is Terminator {
        i
    } else {
        first_terminal(kinds, i + 1)
    }
}

pub proof fn lemma_first_terminal(kinds: Seq<TokenKind>, i: int)
    requires
        0 <= i <= kinds.len(),
    ensures
        i <= first_terminal(kinds, i) <= kinds.len(),
        forall|j: int| i <= j < first_terminal(kinds, i) ==> !(kinds[j] is Terminator),
        first_terminal(kinds, i) < kinds.len() ==> kinds[first_terminal(kinds, i)] is Terminator,
    decreases kinds.len() - i,
{
    if i < kinds.len() && !(kinds[i] is Terminator) {
        lemma_first_terminal(kinds, i + 1);
    }
}

/// Compiles a run of tokens into a production string: the tokens up to the
/// first terminator must all be symbols, and each is interned in order.
pub fn compile_prod_string(tokens: &Vec<Token>, table: &mut SymbolTable) -> (r: Result<
    ProductionString,
    Error,
>)
    requires
        old(table).wf(),
    ensures
        final(table).wf(),
        ({
            let texts = texts_of(tokens@);
            let kinds = kinds_of(tokens@);
            let upto = first_terminal(kinds, 0);
            &&& (r matches Ok(ps) ==> {
                &&& forall|j: int| 0 <= j < upto ==> kinds[j] == TokenKind::Symbol
                &&& final(table)@ == spec_parse_tokens(old(table)@, texts.take(upto)).0
                &&& ps@ == spec_parse_tokens(old(table)@, texts.take(upto)).1
            })
            &&& ((exists|j: int|
                0 <= j < upto && kinds[j] != TokenKind::Symbol) ==> r is Err)
            &&& ((forall|j: int| 0 <= j < upto ==> kinds[j] == TokenKind::Symbol)
                && tokens_classified(tokens@) && old(table)@.len() + upto + FIRST_CODE
                <= u32::MAX ==> r is Ok)
        }),
        r matches Err(e) ==> e.spec_kind() == ErrorKind::Parse || e.spec_kind()
            == ErrorKind::Execution,
{
    let ghost texts = texts_of(tokens@);
    let ghost kinds = kinds_of(tokens@);
    proof {
        lemma_first_terminal(kinds, 0);
    }
    let ghost upto = first_terminal(kinds, 0);
    let mut result = ProductionString::new();
    let mut i: usize = 0;
    while i < tokens.len()
        invariant_except_break
            old(table).wf(),
            table.wf(),
            0 <= i <= tokens@.len(),
            texts == texts_of(tokens@),
            kinds == kinds_of(tokens@),
            upto == first_terminal(kinds, 0),
            0 <= upto <= kinds.len(),
            upto < kinds.len() ==> kinds[upto] is Terminator,
            kinds.len() == tokens@.len(),
            i <= upto,
            forall|j: int| 0 <= j < i ==> kinds[j] == TokenKind::Symbol,
            table@ == spec_parse_tokens(old(table)@, texts.take(i as int)).0,
            result@ == spec_parse_tokens(old(table)@, texts.take(i as int)).1,
            table@.len() <= old(table)@.len() + i,
        ensures
            old(table).wf(),
            table.wf(),
            i as int == upto,
            forall|j: int| 0 <= j < upto ==> kinds[j] == TokenKind::Symbol,
            table@ == spec_parse_tokens(old(table)@, texts.take(upto)).0,
            result@ == spec_parse_tokens(old(table)@, texts.take(upto)).1,
        decreases tokens@.len() - i,
    {
        proof {
            assert(tokens@[i as int].kind == kinds[i as int]);
            assert(tokens@[i as int].text@ == texts[i as int]);
            assert(texts.take(i + 1).drop_last() =~= texts.take(i as int));
        }
        let token = tokens[i];
        if token.is_terminal() {
            proof {
                lemma_first_terminal_found(kinds, i as int);
            }
            break;
        }
        let symbol = match token.to_symbol(table) {
            Ok(symbol) => symbol,
            Err(e) => {
                proof {
                    if !(exists|j: int| 0 <= j < upto && kinds[j] != TokenKind::Symbol)
                        && tokens_classified(tokens@) && old(table)@.len() + upto + FIRST_CODE
                        <= u32::MAX {
                        assert(kinds[i as int] == TokenKind::Symbol);
                        assert(false);
                    }
                }
                return Err(e);
            },
        };
        result.push_symbol(symbol);
        i += 1;
        proof {
            assert(i <= upto) by {
                if i as int > upto {
                    assert(kinds[upto] is Terminator);
                }
            }
        }
    }
    Ok(result)
}

/// If no terminator stands before `k` and a terminator stands at `k`, then
/// `k` is the first terminator.
proof fn lemma_first_terminal_found(kinds: Seq<TokenKind>, k: int)
    requires
        0 <= k < kinds.len(),
        kinds[k] is Terminator,
        forall|j: int| 0 <= j < k ==> kinds[j] == TokenKind::Symbol,
    ensures
        first_terminal(kinds, 0) == k,
    decreases k,
{
    lemma_first_terminal_found_from(kinds, k, 0);
}

proof fn lemma_first_terminal_found_from(kinds: Seq<TokenKind>, k: int, i: int)
    requires
        0 <= i <= k < kinds.len(),
        kinds[k] is Terminator,
        forall|j: int| i <= j < k ==> !(kinds[j] is Terminator),
    ensures
        first_terminal(kinds, i) == k,
    decreases k - i,
{
    if i < k {
        lemma_first_terminal_found_from(kinds, k, i + 1);
    }
}

impl ParsableType for ProductionString {
    open spec fn spec_kind() -> StatementKind {
        StatementKind::ProductionString
    }

    /// A production string accepts a run whose tokens are all symbols up to
    /// its first terminator.
    open spec fn accepts(toks: Seq<Token>) -> bool {
        let kinds = kinds_of(toks);
        forall|j: int| 0 <= j < first_terminal(kinds, 0) ==> kinds[j] == TokenKind::Symbol
    }

    /// Compiling interns the symbol texts before the first terminator, in
    /// order.
    open spec fn compiled(names: Seq<Seq<char>>, toks: Seq<Token>) -> (
        Seq<Seq<char>>,
        Seq<Symbol>,
    ) {
        spec_parse_tokens(names, texts_of(toks).take(first_terminal(kinds_of(toks), 0)))
    }

    /// Success is owed when the table has room for every token of the run.
    open spec fn room_for(names: Seq<Seq<char>>, toks: Seq<Token>) -> bool {
        names.len() + first_terminal(kinds_of(toks), 0) + FIRST_CODE <= u32::MAX
    }

    fn kind() -> (r: StatementKind) {
        StatementKind::ProductionString
    }

    /// Whether the upcoming tokens form a run of symbols ended by a
    /// terminator.
    fn matches(iterator: TokenIterator) -> (r: Match) {
        prod_string_matches(iterator)
    }

    fn compile_from(tokens: &Vec<Token>, table: &mut SymbolTable) -> (r: Result<Self, Error>) {
        compile_prod_string(tokens, table)
    }

    fn compile(statement: CheckedStatement<'_, '_>, table: &mut SymbolTable) -> (r: Result<
        Self,
        Error,
    >) {
        let checked = match statement.expect(StatementKind::ProductionString) {
            Ok(checked) => checked,
            Err(e) => {
                return Err(e);
            },
        };
        compile_prod_string(checked.tokens(), table)
    }
}

/// Whether the iterator's upcoming tokens form a run of symbols ended by a
/// terminator: the exact shape that a production string statement has.
pub fn prod_string_matches(iterator: TokenIterator) -> (r: Match)
    requires
        iterator.wf(),
    ensures
        r == ps_match_from(
            scanned_texts(spec_tokens_from(iterator.text@, iterator.pos())),
            0,
        ),
{
    let ghost s = iterator.text@;
    let ghost start = iterator.pos();
    let ghost full = spec_tokens_from(s, start);
    let ghost texts = scanned_texts(full);
    proof {
        lemma_tokens_count(s, start);
    }
    let mut it = iterator;
    let mut i: usize = 0;
    loop
        invariant_except_break
            it.wf(),
            it.text@ == s,
            i <= texts.len(),
            full == spec_tokens_from(s, start),
            texts == scanned_texts(full),
            texts == scanned_texts(spec_tokens_from(iterator.text@, iterator.pos())),
            texts.len() <= s.len(),
            spec_tokens_from(s, it.pos()) =~= full.skip(i as int),
            ps_match_from(texts, i as int) == ps_match_from(texts, 0),
        ensures
            ps_match_from(texts, 0) == Match::No(0),
        decreases s.len() - it.pos() + 1,
    {
        let ghost pos_before = it.pos();
        proof {
            crate::parser::iterator::lemma_scan_advances(s, pos_before);
        }
        match it.next() {
            Option::None => {
                proof {
                    assert(full.skip(i as int).len() == 0);
                    assert(i as int == full.len());
                    assert(ps_match_from(texts, i as int) == Match::No(0));
                }
                break;
            },
            Option::Some(token) => {
                proof {
                    assert(full.skip(i as int).len() > 0);
                    assert(i < texts.len());
                    assert(full.skip(i as int)[0] == full[i as int]);
                    assert(full.skip(i as int)[0] == (
                        token.text@,
                        token.start as int,
                        token.end as int,
                    ));
                    assert(texts[i as int] == token.text@);
                    assert(full.skip(i as int).drop_first() =~= full.skip(i + 1));
                }
                let kind = crate::parser::token::kind_of(token.text());
                proof {
                    assert(spec_token_kind(texts[i as int]) == kind);
                }
                match kind {
                    TokenKind::Symbol => {
                        proof {
                            assert(ps_match_from(texts, i as int) == ps_match_from(
                                texts,
                                i + 1,
                            ));
                        }
                        i += 1;
                    },
                    TokenKind::Terminator => {
                        proof {
                            assert(ps_match_from(texts, i as int) == Match::Matches(
                                (i + 1) as usize,
                            ));
                        }
                        return Match::Matches(i + 1);
                    },
                    _ => {
                        proof {
                            assert(ps_match_from(texts, i as int) == Match::No(i as usize));
                        }
                        return Match::No(i);
                    },
                }
            },
        }
    }
    Match::No(0)
}

} // verus!
